//! The currency ledger: constants, economy settings, the ledger-row replay
//! (`apply_row`), the action classifier, the per-turn tick (escrow release,
//! decay tax, passive income), penalty and bounty hooks, and the
//! open-dispute indexes.
use vstd::prelude::*;
use crate::text::{chars_is, debug_quote, debug_quoted, chars_of, chars_starts_with, chars_contains, push_str, push_chars, i64_dec, u64_dec, u64_digits, pad_zeros, string_from_chars, to_lowercase, trim_chars, trim_start_chars, is_whitespace, lowercase_of, trim_seq, trim_start_seq, has_prefix, contains_seq, is_ws, dec, dec_int, base_digits, zero_pad};

verus! {

// ---------------------------------------------------------------------------
// Constants
// ---------------------------------------------------------------------------

pub const STARTING_BALANCE_COPPER: i64 = 500;
pub const DEFICIT_CAP_COPPER: i64 = -1000;
pub const PASS_EARN_COPPER: i64 = 1;
pub const SPEAK_EARN_COPPER: i64 = 10;
pub const EDIT_EARN_COPPER: i64 = 25;
pub const TEST_EARN_COPPER: i64 = 20;
pub const EDIT_LINE_BONUS_THRESHOLD: u64 = 100;
pub const PASS_ESCROW_TICKS: u64 = 10;
pub const SPEAK_ESCROW_TICKS: u64 = 20;
pub const EDIT_ESCROW_TICKS: u64 = 50;
pub const TEST_ESCROW_TICKS: u64 = 50;
pub const PASSIVE_PER_TICK_COPPER: i64 = 1;
pub const INTEREST_MIN_HELD_COPPER: i64 = 10;
pub const INTEREST_PER_10_COPPER_HELD: i64 = 0;
pub const PASS_BODY_LEN_THRESHOLD: usize = 100;
pub const OBJECTION_COST_COPPER: i64 = 50;
pub const DISPUTE_SPEECH_COST_COPPER: i64 = 5;
pub const DISPUTE_EDIT_COST_COPPER: i64 = 10;
pub const JUDGE_COST_PER_PARTY: i64 = 50;
pub const JUDGE_AUTO_INVOKE_THRESHOLD: i64 = 500;
pub const SYSTEM_DISPUTE_COST: i64 = 50;
pub const SYSTEM_DISPUTE_REWARD: i64 = 200;
pub const SYSTEM_DISPUTE_PENALTY: i64 = 250;
pub const SYSTEM_DISPUTE_BAN_TURNS: u64 = 10;
pub const CLAWBACK_PERCENT: u64 = 90;
pub const RETRO_PASS_PENALTY_COPPER: i64 = 3;
pub const RETRO_PASS_SCAN_WINDOW_TURNS: u64 = 12;
pub const COLIABILITY_TEST_PENALTY_COPPER: i64 = 15;
pub const BOUNTY_CLAIM_STAKE_PERCENT: u64 = 10;
pub const BOUNTY_ABANDON_LOSS_PERCENT: u64 = 50;
pub const BOUNTY_REJECT_LOSS_PERCENT: u64 = 100;
pub const BOUNTY_OBJECTION_CLAWBACK_PERCENT: u64 = 90;
pub const DECAY_COPPER_PCT_PER_TURN_TENTHS: i64 = 10;
pub const DECAY_SILVER_PCT_PER_TURN_TENTHS: i64 = 5;
pub const DECAY_FLOOR_COPPER: i64 = 100;

pub const OXFORD_DEFAULT_WINNING_REWARD_COPPER: i64 = 500;
pub const OXFORD_TURN_SOFT_LIMIT_SECS: u64 = 60;
pub const OXFORD_TURN_HARD_LIMIT_SECS: u64 = 120;
pub const OXFORD_AUDIENCE_VOTE_WINDOW_SECS: u64 = 30;
pub const OXFORD_MODERATOR_VACANCY_TIMEOUT_SECS: u64 = 300;
pub const OXFORD_REACT_RATE_LIMIT_PER_MIN: u64 = 3;
pub const OXFORD_REACT_RATE_LIMIT_WINDOW_SECS: u64 = 60;

// ---------------------------------------------------------------------------
// Saturating and rounding arithmetic
// ---------------------------------------------------------------------------

pub open spec fn clamp_i64(v: int) -> int {
    if v > i64::MAX {
        i64::MAX as int
    } else if v < i64::MIN {
        i64::MIN as int
    } else {
        v
    }
}

/// `i64::saturating_add`.
pub fn sat_add(a: i64, b: i64) -> (r: i64)
    ensures
        r == clamp_i64(a + b),
{
    let s = a as i128 + b as i128;
    if s > i64::MAX as i128 {
        i64::MAX
    } else if s < i64::MIN as i128 {
        i64::MIN
    } else {
        s as i64
    }
}

/// `i64::saturating_sub`.
pub fn sat_sub(a: i64, b: i64) -> (r: i64)
    ensures
        r == clamp_i64(a - b),
{
    let s = a as i128 - b as i128;
    if s > i64::MAX as i128 {
        i64::MAX
    } else if s < i64::MIN as i128 {
        i64::MIN
    } else {
        s as i64
    }
}

/// Round-up integer division over non-negative operands; 0 when either is
/// not positive.
pub open spec fn ceil_div_spec(numer: int, denom: int) -> int {
    if numer <= 0 || denom <= 0 {
        0
    } else {
        (numer + denom - 1) / denom
    }
}

/// Round-up integer division: `ceil(numer / denom)`, 0 unless both are positive.
pub fn ceil_div(numer: i64, denom: i64) -> (r: i64)
    requires
        numer > 0 && denom > 0 ==> numer + denom <= i64::MAX,
    ensures
        r == ceil_div_spec(numer as int, denom as int),
{
    if numer <= 0 || denom <= 0 {
        return 0;
    }
    (numer + denom - 1) / denom
}

/// Rust's truncating division by a positive divisor.
pub open spec fn tdiv(a: int, b: int) -> int {
    if a >= 0 {
        a / b
    } else {
        -((-a) / b)
    }
}

// ---------------------------------------------------------------------------
// Display split
// ---------------------------------------------------------------------------

/// Gold / silver / copper split of a copper amount; each part carries the sign.
#[derive(Debug, Clone, Copy)]
pub struct CopperDisplay {
    pub gold: i64,
    pub silver: i64,
    pub copper: i64,
}

pub open spec fn abs_int(c: int) -> int {
    if c < 0 {
        -c
    } else {
        c
    }
}

pub open spec fn sign_of(c: int) -> int {
    if c < 0 {
        -1
    } else {
        1
    }
}

/// 1 gold = 100 silver = 10,000 copper.
pub fn copper_to_display(c: i64) -> (d: CopperDisplay)
    requires
        c != i64::MIN,
    ensures
        d.gold == sign_of(c as int) * (abs_int(c as int) / 10000),
        d.silver == sign_of(c as int) * ((abs_int(c as int) % 10000) / 100),
        d.copper == sign_of(c as int) * (abs_int(c as int) % 100),
{
    let sign: i64 = if c < 0 {
        -1
    } else {
        1
    };
    let abs = if c < 0 {
        -c
    } else {
        c
    };
    let gold = abs / 10_000;
    let silver = (abs % 10_000) / 100;
    let copper = abs % 100;
    CopperDisplay { gold: sign * gold, silver: sign * silver, copper: sign * copper }
}

/// The split loses nothing: gold·10000 + silver·100 + copper is the amount,
/// with silver and copper below 100 in magnitude and every part carrying the
/// amount's sign.
pub proof fn law_display_split_exact(c: int)
    ensures
        ({
            let a = abs_int(c);
            let s = sign_of(c);
            &&& s * (a / 10000) * 10000 + s * ((a % 10000) / 100) * 100 + s * (a % 100) == c
            &&& 0 <= (a % 10000) / 100 < 100
            &&& 0 <= a % 100 < 100
        }),
{
    let a = abs_int(c);
    let s = sign_of(c);
    assert(a == (a / 10000) * 10000 + (a % 10000)) by (nonlinear_arith);
    assert(a % 10000 == ((a % 10000) / 100) * 100 + (a % 10000) % 100) by (nonlinear_arith);
    assert((a % 10000) % 100 == a % 100) by (nonlinear_arith)
        requires
            a >= 0,
    ;
    assert(0 <= a % 10000 < 10000);
    assert(0 <= (a % 10000) / 100 < 100) by (nonlinear_arith)
        requires
            0 <= a % 10000 < 10000,
    ;
    assert(s * (a / 10000) * 10000 + s * ((a % 10000) / 100) * 100 + s * (a % 100) == s * ((a
        / 10000) * 10000 + ((a % 10000) / 100) * 100 + a % 100)) by (nonlinear_arith);
}

// ---------------------------------------------------------------------------
// Ledger types
// ---------------------------------------------------------------------------

/// Action classification of a send, and the ledger opcodes.
#[derive(Debug, Clone, Copy, PartialEq, Eq, Structural)]
pub enum ActionKind {
    Pass,
    Speak,
    Exempt,
    Init,
    Edit,
    Test,
    Credit,
    EscrowHold,
    EscrowRelease,
    Passive,
    Interest,
    Penalty,
    Clawback,
    PoolDestroyed,
    BountyStake,
    BountyEarn,
    BountyClawback,
    BountyExpire,
    Decay,
    HumanAdjust,
    EconomyTune,
}

/// A currency transaction row of the append-only ledger.
#[derive(Debug, Clone, Default)]
pub struct LedgerRow {
    pub id: u64,
    /// "init" | "credit" | "escrow_hold" | "escrow_release" | "passive" | ...
    pub txn_type: String,
    pub seat: String,
    pub amount: i64,
    pub reason: String,
    pub ref_msg: Option<u64>,
    pub balance_after: i64,
    pub escrow_id: Option<String>,
    /// Maturity turn of an escrow hold (or the until-turn of a ban row).
    pub release_turn: Option<u64>,
    pub turn: Option<u64>,
    pub action_kind: Option<ActionKind>,
    pub linked_edit_msg: Option<u64>,
    pub at: String,
}

/// Funds held in escrow until `release_turn`.
#[derive(Debug, Clone)]
pub struct EscrowItem {
    pub id: String,
    pub amount: i64,
    pub release_turn: u64,
    pub action: String,
    pub ref_msg: Option<u64>,
}

/// One seat's balance, escrow and status.
#[derive(Debug, Clone)]
pub struct SeatBalance {
    pub balance: i64,
    pub escrow_held: i64,
    pub escrow_items: Vec<EscrowItem>,
    pub timed_out: bool,
    /// Turn until which the seat may not file system disputes.
    pub system_dispute_ban_until: Option<u64>,
}

/// A seat balance seen as plain values.
pub struct SeatModel {
    pub balance: i64,
    pub escrow_held: i64,
    pub items: Seq<EscrowItem>,
    pub timed_out: bool,
    pub ban_until: Option<u64>,
}

impl View for SeatBalance {
    type V = SeatModel;

    open spec fn view(&self) -> SeatModel {
        SeatModel {
            balance: self.balance,
            escrow_held: self.escrow_held,
            items: self.escrow_items@,
            timed_out: self.timed_out,
            ban_until: self.system_dispute_ban_until,
        }
    }
}

/// The state of a seat never seen before.
pub open spec fn empty_seat() -> SeatModel {
    SeatModel {
        balance: 0,
        escrow_held: 0,
        items: Seq::empty(),
        timed_out: false,
        ban_until: None,
    }
}

impl SeatBalance {
    /// A seat with nothing: zero balance, no escrow, not timed out, no ban.
    pub fn empty() -> (s: SeatBalance)
        ensures
            s@ == empty_seat(),
    {
        SeatBalance {
            balance: 0,
            escrow_held: 0,
            escrow_items: Vec::new(),
            timed_out: false,
            system_dispute_ban_until: None,
        }
    }
}

impl Default for SeatBalance {
    fn default() -> (s: SeatBalance)
        ensures
            s@ == empty_seat(),
    {
        SeatBalance::empty()
    }
}

// ---------------------------------------------------------------------------
// Seat table (seat label -> balance), in insertion order
// ---------------------------------------------------------------------------

pub type SeatSeq = Seq<(Seq<char>, SeatModel)>;

/// Position of seat `k`, or -1.
pub open spec fn seat_index(s: SeatSeq, k: Seq<char>) -> int
    decreases s.len(),
{
    if s.len() == 0 {
        -1
    } else if s.last().0 == k {
        s.len() - 1
    } else {
        seat_index(s.drop_last(), k)
    }
}

/// The balance of seat `k`, when it has one.
pub open spec fn seat_lookup(s: SeatSeq, k: Seq<char>) -> Option<SeatModel> {
    let i = seat_index(s, k);
    if i >= 0 {
        Some(s[i].1)
    } else {
        None
    }
}

/// The balance of seat `k`, or the empty seat.
pub open spec fn seat_or_empty(s: SeatSeq, k: Seq<char>) -> SeatModel {
    match seat_lookup(s, k) {
        Some(m) => m,
        None => empty_seat(),
    }
}

/// Set seat `k` to `v`: in place when present, appended otherwise.
pub open spec fn seat_put(s: SeatSeq, k: Seq<char>, v: SeatModel) -> SeatSeq {
    let i = seat_index(s, k);
    if i >= 0 {
        s.update(i, (k, v))
    } else {
        s.push((k, v))
    }
}

/// No seat label occurs twice.
pub open spec fn seats_distinct(s: SeatSeq) -> bool {
    forall|i: int, j: int| 0 <= i < j < s.len() ==> s[i].0 != s[j].0
}

pub proof fn lemma_seat_index(s: SeatSeq, k: Seq<char>)
    ensures
        -1 <= seat_index(s, k) < s.len(),
        seat_index(s, k) >= 0 ==> s[seat_index(s, k)].0 == k,
        seat_index(s, k) == -1 ==> forall|j: int| 0 <= j < s.len() ==> s[j].0 != k,
    decreases s.len(),
{
    if s.len() > 0 && s.last().0 != k {
        lemma_seat_index(s.drop_last(), k);
        assert forall|j: int| 0 <= j < s.len() && seat_index(s, k) == -1 implies s[j].0 != k by {
            if j < s.len() - 1 {
                assert(s[j] == s.drop_last()[j]);
            }
        }
    }
}

pub proof fn lemma_seat_index_unique(s: SeatSeq, k: Seq<char>, j: int)
    requires
        seats_distinct(s),
        0 <= j < s.len(),
        s[j].0 == k,
    ensures
        seat_index(s, k) == j,
{
    lemma_seat_index(s, k);
}

pub proof fn lemma_seat_put(s: SeatSeq, k: Seq<char>, v: SeatModel)
    requires
        seats_distinct(s),
    ensures
        seats_distinct(seat_put(s, k, v)),
        seat_lookup(seat_put(s, k, v), k) == Some(v),
        forall|k2: Seq<char>| k2 != k ==> seat_lookup(seat_put(s, k, v), k2) == seat_lookup(s, k2),
{
    lemma_seat_index(s, k);
    let t = seat_put(s, k, v);
    assert(seats_distinct(t));
    lemma_seat_index_unique(t, k, if seat_index(s, k) >= 0 { seat_index(s, k) } else { s.len() as int });
    assert forall|k2: Seq<char>| k2 != k implies seat_lookup(t, k2) == seat_lookup(s, k2) by {
        lemma_seat_index(s, k2);
        lemma_seat_index(t, k2);
        if seat_index(s, k2) >= 0 {
            lemma_seat_index_unique(t, k2, seat_index(s, k2));
        } else {
            if seat_index(t, k2) >= 0 {
                assert(t[seat_index(t, k2)].0 == k2);
            }
        }
    }
}

/// The seat table: a balance per seat label, labels distinct, kept in the
/// order seats were first seen.
pub struct SeatMap {
    entries: Vec<(String, SeatBalance)>,
}

impl View for SeatMap {
    type V = SeatSeq;

    closed spec fn view(&self) -> SeatSeq {
        self.entries@.map_values(|e: (String, SeatBalance)| (e.0@, e.1@))
    }
}

impl SeatMap {
    #[verifier::type_invariant]
    closed spec fn labels_distinct(&self) -> bool {
        seats_distinct(self@)
    }

    /// An empty table.
    pub fn new() -> (m: SeatMap)
        ensures
            m@ == Seq::<(Seq<char>, SeatModel)>::empty(),
    {
        let m = SeatMap { entries: Vec::new() };
        assert(m@ =~= Seq::<(Seq<char>, SeatModel)>::empty());
        m
    }

    /// Number of seats.
    pub fn len(&self) -> (n: usize)
        ensures
            n == self@.len(),
    {
        self.entries.len()
    }

    pub fn is_empty(&self) -> (b: bool)
        ensures
            b == (self@.len() == 0),
    {
        self.entries.len() == 0
    }

    /// Labels are distinct (the table's invariant, made available to callers).
    pub fn labels_are_distinct(&self)
        ensures
            seats_distinct(self@),
    {
        proof {
            use_type_invariant(self);
        }
    }

    /// Position of `seat`, if present.
    pub fn position(&self, seat: &str) -> (r: Option<usize>)
        ensures
            match r {
                Some(i) => i == seat_index(self@, seat@) && i < self@.len(),
                None => seat_index(self@, seat@) == -1,
            },
    {
        proof {
            use_type_invariant(self);
        }
        let mut i: usize = 0;
        while i < self.entries.len()
            invariant
                i <= self.entries.len(),
                self@.len() == self.entries.len(),
                seats_distinct(self@),
                forall|j: int| 0 <= j < i ==> self@[j].0 != seat@,
            decreases self.entries.len() - i,
        {
            if crate::text::str_eq(self.entries[i].0.as_str(), seat) {
                proof {
                    assert(self@[i as int].0 == seat@);
                    lemma_seat_index_unique(self@, seat@, i as int);
                }
                return Some(i);
            }
            i = i + 1;
        }
        proof {
            lemma_seat_index(self@, seat@);
            if seat_index(self@, seat@) >= 0 {
                assert(self@[seat_index(self@, seat@)].0 == seat@);
            }
        }
        None
    }

    /// The balance of `seat`.
    pub fn get(&self, seat: &str) -> (r: Option<&SeatBalance>)
        ensures
            match r {
                Some(b) => seat_lookup(self@, seat@) == Some(b@),
                None => seat_lookup(self@, seat@) is None,
            },
    {
        match self.position(seat) {
            Some(i) => Some(&self.entries[i].1),
            None => None,
        }
    }

    /// Is `seat` present?
    pub fn contains_key(&self, seat: &str) -> (b: bool)
        ensures
            b == (seat_lookup(self@, seat@) is Some),
    {
        self.position(seat).is_some()
    }

    /// Seat label and balance at position `i`.
    pub fn entry_at(&self, i: usize) -> (r: (&String, &SeatBalance))
        requires
            i < self@.len(),
        ensures
            r.0@ == self@[i as int].0,
            r.1@ == self@[i as int].1,
    {
        let e = &self.entries[i];
        (&e.0, &e.1)
    }

    /// Set `seat` to `bal`: replaced in place when present, appended otherwise.
    pub fn insert(&mut self, seat: String, bal: SeatBalance)
        ensures
            final(self)@ == seat_put(old(self)@, seat@, bal@),
    {
        proof {
            use_type_invariant(&*self);
            lemma_seat_put(self@, seat@, bal@);
        }
        let pos = self.position(seat.as_str());
        let ghost k = seat@;
        let ghost v = bal@;
        let ghost before = self@;
        match pos {
            Some(i) => {
                let mut entries: Vec<(String, SeatBalance)> = Vec::new();
                std::mem::swap(&mut entries, &mut self.entries);
                entries.set(i, (seat, bal));
                assert(entries@.map_values(|e: (String, SeatBalance)| (e.0@, e.1@)) =~= seat_put(before, k, v));
                self.entries = entries;
            },
            None => {
                let mut entries: Vec<(String, SeatBalance)> = Vec::new();
                std::mem::swap(&mut entries, &mut self.entries);
                entries.push((seat, bal));
                assert(entries@.map_values(|e: (String, SeatBalance)| (e.0@, e.1@)) =~= seat_put(before, k, v));
                self.entries = entries;
            },
        }
    }

    /// Remove and return the balance of `seat` (the empty seat when absent),
    /// leaving the empty seat in its place; the table keeps its order.
    fn take_seat(&mut self, seat: &str) -> (r: SeatBalance)
        ensures
            r@ == seat_or_empty(old(self)@, seat@),
            final(self)@ == seat_put(old(self)@, seat@, empty_seat()),
    {
        proof {
            use_type_invariant(&*self);
            lemma_seat_put(self@, seat@, empty_seat());
        }
        let ghost before = self@;
        match self.position(seat) {
            Some(i) => {
                let mut entries: Vec<(String, SeatBalance)> = Vec::new();
                std::mem::swap(&mut entries, &mut self.entries);
                let ghost old_entries = entries@;
                proof {
                    lemma_seat_index(before, seat@);
                    assert(before[i as int].0 == old_entries[i as int].0@);
                }
                let (k, b) = entries.remove(i);
                assert(k@ == seat@);
                let e = SeatBalance::empty();
                entries.insert(i, (k, e));
                assert(entries@ =~= old_entries.update(i as int, (k, e)));
                assert(entries@.map_values(|e: (String, SeatBalance)| (e.0@, e.1@)) =~= seat_put(before, seat@, empty_seat()));
                self.entries = entries;
                b
            },
            None => {
                let mut entries: Vec<(String, SeatBalance)> = Vec::new();
                std::mem::swap(&mut entries, &mut self.entries);
                entries.push((owned_str(seat), SeatBalance::empty()));
                assert(entries@.map_values(|e: (String, SeatBalance)| (e.0@, e.1@)) =~= seat_put(before, seat@, empty_seat()));
                self.entries = entries;
                SeatBalance::empty()
            },
        }
    }

    /// Take out the balance at position `i`, leaving the empty seat there;
    /// also returns the label.
    pub fn take_at(&mut self, i: usize) -> (r: (String, SeatBalance))
        requires
            i < old(self)@.len(),
        ensures
            r.0@ == old(self)@[i as int].0,
            r.1@ == old(self)@[i as int].1,
            final(self)@ == old(self)@.update(i as int, (old(self)@[i as int].0, empty_seat())),
    {
        proof {
            use_type_invariant(&*self);
        }
        let ghost before = self@;
        let mut entries: Vec<(String, SeatBalance)> = Vec::new();
        std::mem::swap(&mut entries, &mut self.entries);
        let ghost old_entries = entries@;
        let (k, b) = entries.remove(i);
        let label = k.clone();
        entries.insert(i, (k, SeatBalance::empty()));
        proof {
            let v = entries@.map_values(|e: (String, SeatBalance)| (e.0@, e.1@));
            assert(v =~= before.update(i as int, (before[i as int].0, empty_seat())));
            assert(seats_distinct(v)) by {
                assert forall|a: int, c: int| 0 <= a < c < v.len() implies v[a].0 != v[c].0 by {
                    assert(v[a].0 == before[a].0);
                    assert(v[c].0 == before[c].0);
                }
            }
        }
        self.entries = entries;
        (label, b)
    }

    /// Set the balance at position `i`; the label stays.
    pub fn put_at(&mut self, i: usize, bal: SeatBalance)
        requires
            i < old(self)@.len(),
        ensures
            final(self)@ == old(self)@.update(i as int, (old(self)@[i as int].0, bal@)),
    {
        proof {
            use_type_invariant(&*self);
        }
        let ghost before = self@;
        let ghost bv = bal@;
        let mut entries: Vec<(String, SeatBalance)> = Vec::new();
        std::mem::swap(&mut entries, &mut self.entries);
        let (k, _old) = entries.remove(i);
        entries.insert(i, (k, bal));
        proof {
            let v = entries@.map_values(|e: (String, SeatBalance)| (e.0@, e.1@));
            assert(v =~= before.update(i as int, (before[i as int].0, bv)));
            assert(seats_distinct(v)) by {
                assert forall|a: int, c: int| 0 <= a < c < v.len() implies v[a].0 != v[c].0 by {
                    assert(v[a].0 == before[a].0);
                    assert(v[c].0 == before[c].0);
                }
            }
        }
        self.entries = entries;
    }

    /// The seat labels, in table order.
    pub fn labels(&self) -> (v: Vec<String>)
        ensures
            v@.len() == self@.len(),
            forall|i: int| 0 <= i < v@.len() ==> v@[i]@ == self@[i].0,
    {
        let mut v: Vec<String> = Vec::new();
        let mut i: usize = 0;
        while i < self.entries.len()
            invariant
                i <= self.entries.len(),
                self@.len() == self.entries.len(),
                v@.len() == i,
                forall|j: int| 0 <= j < i ==> v@[j]@ == self@[j].0,
            decreases self.entries.len() - i,
        {
            v.push(self.entries[i].0.clone());
            i = i + 1;
        }
        v
    }
}

pub fn owned_str(s: &str) -> (r: String)
    ensures
        r@ == s@,
{
    s.to_owned()
}

/// Balances snapshot: counters plus the seat table.
pub struct BalancesSnapshot {
    pub turn_counter: u64,
    pub next_txn_id: u64,
    pub next_escrow_id: u64,
    pub next_bounty_id: u64,
    pub seats: SeatMap,
}

impl BalancesSnapshot {
    /// Turn 0, all counters 0, no seats.
    pub fn new() -> (s: BalancesSnapshot)
        ensures
            s.turn_counter == 0,
            s.next_txn_id == 0,
            s.next_escrow_id == 0,
            s.next_bounty_id == 0,
            s.seats@.len() == 0,
    {
        BalancesSnapshot {
            turn_counter: 0,
            next_txn_id: 0,
            next_escrow_id: 0,
            next_bounty_id: 0,
            seats: SeatMap::new(),
        }
    }
}

impl Default for BalancesSnapshot {
    fn default() -> (s: BalancesSnapshot)
        ensures
            s.turn_counter == 0,
            s.next_txn_id == 0,
            s.next_escrow_id == 0,
            s.next_bounty_id == 0,
            s.seats@.len() == 0,
    {
        BalancesSnapshot::new()
    }
}

// ---------------------------------------------------------------------------
// Applying one ledger row to a seat
// ---------------------------------------------------------------------------

/// `items` without the escrow items whose id is `id`.
pub open spec fn drop_escrow(items: Seq<EscrowItem>, id: Seq<char>) -> Seq<EscrowItem>
    decreases items.len(),
{
    if items.len() == 0 {
        Seq::empty()
    } else if items.last().id@ == id {
        drop_escrow(items.drop_last(), id)
    } else {
        drop_escrow(items.drop_last(), id).push(items.last())
    }
}

/// Row types that add `amount` to the balance (saturating).
pub open spec fn adds_to_balance(t: Seq<char>) -> bool {
    ||| t == "credit"@
    ||| t == "passive"@
    ||| t == "interest"@
    ||| t == "penalty"@
    ||| t == "decay"@
    ||| t == "human_adjust"@
    ||| t == "bounty_stake"@
    ||| t == "bounty_earn"@
    ||| t == "bounty_clawback"@
}

/// The message of a duplicate `init`.
pub open spec fn duplicate_init_msg(row: LedgerRow) -> Seq<char> {
    "currency.replay HARD ERROR: duplicate init for seat "@ + row.seat@ + " (row id "@ + dec(
        row.id as nat,
    ) + ")"@
}

/// The message of an unknown row type.
pub open spec fn unknown_type_msg(row: LedgerRow) -> Seq<char> {
    "currency.replay HARD ERROR: unknown transaction type "@ + debug_quoted(row.txn_type@)
        + " (row id "@ + dec(row.id as nat) + ")"@
}

/// What a row does to a seat, before the deficit check.
pub open spec fn row_arm(e: SeatModel, row: LedgerRow) -> Result<SeatModel, Seq<char>> {
    let t = row.txn_type@;
    if t == "init"@ {
        if e.balance != 0 || e.items.len() > 0 || e.escrow_held != 0 {
            Err(duplicate_init_msg(row))
        } else {
            Ok(SeatModel { balance: row.amount, ..e })
        }
    } else if adds_to_balance(t) {
        Ok(SeatModel { balance: clamp_i64(e.balance + row.amount) as i64, ..e })
    } else if t == "escrow_hold"@ {
        let held = abs_int(row.amount as int);
        let items = match row.escrow_id {
            Some(id) => e.items.push(
                EscrowItem {
                    id: id,
                    amount: held as i64,
                    release_turn: match row.release_turn {
                        Some(r) => r,
                        None => 0,
                    },
                    action: row.reason,
                    ref_msg: row.ref_msg,
                },
            ),
            None => e.items,
        };
        Ok(SeatModel { escrow_held: clamp_i64(e.escrow_held + held) as i64, items: items, ..e })
    } else if t == "escrow_release"@ {
        let left = e.escrow_held - row.amount;
        let items = match row.escrow_id {
            Some(id) => drop_escrow(e.items, id@),
            None => e.items,
        };
        Ok(SeatModel { escrow_held: (if left > 0 { left } else { 0 }) as i64, items: items, ..e })
    } else if t == "reinstate"@ {
        Ok(
            SeatModel {
                balance: row.amount,
                timed_out: false,
                items: Seq::empty(),
                escrow_held: 0,
                ban_until: None,
            },
        )
    } else if t == "pool_destroyed"@ || t == "bounty_expire"@ {
        Ok(e)
    } else if t == "system_dispute_ban"@ {
        Ok(SeatModel { ban_until: row.release_turn, ..e })
    } else {
        Err(unknown_type_msg(row))
    }
}

/// What a row does to a seat: its arm, then a balance at or below the deficit
/// cap marks the seat timed out, except after a decay row (decay never trips
/// the time-out; its floor is kept where decay is written). An error leaves
/// the seat as it was.
pub open spec fn row_effect(e: SeatModel, row: LedgerRow) -> Result<SeatModel, Seq<char>> {
    match row_arm(e, row) {
        Ok(e1) => Ok(
            if e1.balance <= DEFICIT_CAP_COPPER && row.txn_type@ != "decay"@ {
                SeatModel { timed_out: true, ..e1 }
            } else {
                e1
            },
        ),
        Err(m) => Err(m),
    }
}

/// The arithmetic of a row stays in range (`abs` of the most negative
/// amount, and the escrow subtraction, would overflow).
pub open spec fn row_fits(e: SeatModel, row: LedgerRow) -> bool {
    &&& row.txn_type@ == "escrow_hold"@ ==> row.amount != i64::MIN
    &&& row.txn_type@ == "escrow_release"@ ==> i64::MIN <= e.escrow_held - row.amount <= i64::MAX
}

fn remove_escrow(items: &mut Vec<EscrowItem>, id: &String)
    ensures
        final(items)@ == drop_escrow(old(items)@, id@),
{
    let mut kept: Vec<EscrowItem> = Vec::new();
    let mut i: usize = 0;
    assert(old(items)@.take(0) =~= Seq::<EscrowItem>::empty());
    while i < items.len()
        invariant
            i <= items.len(),
            items@ == old(items)@,
            kept@ == drop_escrow(old(items)@.take(i as int), id@),
        decreases items.len() - i,
    {
        proof {
            assert(old(items)@.take(i + 1).drop_last() =~= old(items)@.take(i as int));
        }
        if !crate::text::str_eq(items[i].id.as_str(), id.as_str()) {
            kept.push(items[i].clone_item());
        }
        i = i + 1;
    }
    assert(old(items)@.take(items.len() as int) =~= old(items)@);
    *items = kept;
}

impl EscrowItem {
    /// A field-by-field copy.
    pub fn clone_item(&self) -> (c: EscrowItem)
        ensures
            c == *self,
    {
        EscrowItem {
            id: self.id.clone(),
            amount: self.amount,
            release_turn: self.release_turn,
            action: self.action.clone(),
            ref_msg: self.ref_msg,
        }
    }
}

fn hard_error_duplicate_init(row: &LedgerRow) -> (m: String)
    ensures
        m@ == duplicate_init_msg(*row),
{
    let mut v: Vec<char> = Vec::new();
    push_str(&mut v, "currency.replay HARD ERROR: duplicate init for seat ");
    push_str(&mut v, row.seat.as_str());
    push_str(&mut v, " (row id ");
    let d = u64_dec(row.id);
    push_chars(&mut v, &d);
    push_str(&mut v, ")");
    assert(v@ =~= duplicate_init_msg(*row));
    string_from_chars(&v)
}

fn hard_error_unknown_type(row: &LedgerRow) -> (m: String)
    ensures
        m@ == unknown_type_msg(*row),
{
    let mut v: Vec<char> = Vec::new();
    push_str(&mut v, "currency.replay HARD ERROR: unknown transaction type ");
    let q = debug_quote(row.txn_type.as_str());
    push_str(&mut v, q.as_str());
    push_str(&mut v, " (row id ");
    let d = u64_dec(row.id);
    push_chars(&mut v, &d);
    push_str(&mut v, ")");
    assert(v@ =~= unknown_type_msg(*row));
    string_from_chars(&v)
}

fn apply_arm(e: &mut SeatBalance, row: &LedgerRow) -> (res: Result<(), String>)
    requires
        row_fits(old(e)@, *row),
    ensures
        match row_arm(old(e)@, *row) {
            Ok(e1) => res is Ok && final(e)@ == e1,
            Err(m) => res matches Err(s) && s@ == m && final(e)@ == old(e)@,
        },
{
    let t = chars_of(row.txn_type.as_str());
    if chars_is(&t, "init") {
        if e.balance != 0 || e.escrow_items.len() > 0 || e.escrow_held != 0 {
            return Err(hard_error_duplicate_init(row));
        }
        e.balance = row.amount;
        Ok(())
    } else if chars_is(&t, "credit") || chars_is(&t, "passive") || chars_is(&t, "interest")
        || chars_is(&t, "penalty") || chars_is(&t, "decay") || chars_is(&t, "human_adjust")
        || chars_is(&t, "bounty_stake") || chars_is(&t, "bounty_earn") || chars_is(
        &t,
        "bounty_clawback",
    ) {
        e.balance = sat_add(e.balance, row.amount);
        Ok(())
    } else if chars_is(&t, "escrow_hold") {
        let held = if row.amount < 0 {
            -row.amount
        } else {
            row.amount
        };
        e.escrow_held = sat_add(e.escrow_held, held);
        match &row.escrow_id {
            Some(id) => {
                e.escrow_items.push(
                    EscrowItem {
                        id: id.clone(),
                        amount: held,
                        release_turn: match row.release_turn {
                            Some(r) => r,
                            None => 0,
                        },
                        action: row.reason.clone(),
                        ref_msg: row.ref_msg,
                    },
                );
            },
            None => {},
        }
        Ok(())
    } else if chars_is(&t, "escrow_release") {
        let left = e.escrow_held - row.amount;
        e.escrow_held = if left > 0 {
            left
        } else {
            0
        };
        match &row.escrow_id {
            Some(id) => {
                remove_escrow(&mut e.escrow_items, id);
            },
            None => {},
        }
        Ok(())
    } else if chars_is(&t, "reinstate") {
        e.balance = row.amount;
        e.timed_out = false;
        e.escrow_items = Vec::new();
        e.escrow_held = 0;
        e.system_dispute_ban_until = None;
        Ok(())
    } else if chars_is(&t, "pool_destroyed") || chars_is(&t, "bounty_expire") {
        Ok(())
    } else if chars_is(&t, "system_dispute_ban") {
        e.system_dispute_ban_until = row.release_turn;
        Ok(())
    } else {
        Err(hard_error_unknown_type(row))
    }
}

/// Apply one row to a seat: the row's arm, then the deficit check (none
/// after a decay row).
pub fn apply_row_to_seat(e: &mut SeatBalance, row: &LedgerRow) -> (res: Result<(), String>)
    requires
        row_fits(old(e)@, *row),
    ensures
        match row_effect(old(e)@, *row) {
            Ok(e1) => res is Ok && final(e)@ == e1,
            Err(m) => res matches Err(s) && s@ == m && final(e)@ == old(e)@,
        },
{
    let is_decay = crate::text::str_eq(row.txn_type.as_str(), "decay");
    let r = apply_arm(e, row);
    if r.is_ok() && e.balance <= DEFICIT_CAP_COPPER && !is_decay {
        e.timed_out = true;
    }
    r
}

pub proof fn lemma_seat_put_twice(s: SeatSeq, k: Seq<char>, a: SeatModel, b: SeatModel)
    requires
        seats_distinct(s),
    ensures
        seat_put(seat_put(s, k, a), k, b) == seat_put(s, k, b),
{
    lemma_seat_index(s, k);
    lemma_seat_put(s, k, a);
    let t = seat_put(s, k, a);
    if seat_index(s, k) >= 0 {
        lemma_seat_index_unique(t, k, seat_index(s, k));
        assert(seat_put(t, k, b) =~= seat_put(s, k, b));
    } else {
        lemma_seat_index_unique(t, k, s.len() as int);
        assert(seat_put(t, k, b) =~= seat_put(s, k, b));
    }
}

/// Apply a single ledger row to a snapshot (no I/O). The row's seat is
/// created empty when unseen (also when the row is refused); then the row's
/// arm runs and a balance at or below the deficit cap marks the seat timed
/// out. A second `init` on a seat with any balance or escrow, and an unknown
/// row type, are hard errors that leave the seat unchanged. Other seats and
/// the counters are untouched.
pub fn apply_row(snap: &mut BalancesSnapshot, row: &LedgerRow) -> (res: Result<(), String>)
    requires
        row_fits(seat_or_empty(old(snap).seats@, row.seat@), *row),
    ensures
        final(snap).turn_counter == old(snap).turn_counter,
        final(snap).next_txn_id == old(snap).next_txn_id,
        final(snap).next_escrow_id == old(snap).next_escrow_id,
        final(snap).next_bounty_id == old(snap).next_bounty_id,
        match row_effect(seat_or_empty(old(snap).seats@, row.seat@), *row) {
            Ok(e1) => res is Ok && final(snap).seats@ == seat_put(old(snap).seats@, row.seat@, e1),
            Err(m) => res matches Err(s) && s@ == m && final(snap).seats@ == seat_put(
                old(snap).seats@,
                row.seat@,
                seat_or_empty(old(snap).seats@, row.seat@),
            ),
        },
{
    snap.seats.labels_are_distinct();
    let ghost s0 = snap.seats@;
    let mut e = snap.seats.take_seat(row.seat.as_str());
    let r = apply_row_to_seat(&mut e, row);
    let ghost e1 = e@;
    snap.seats.insert(row.seat.clone(), e);
    proof {
        lemma_seat_put_twice(s0, row.seat@, empty_seat(), e1);
    }
    r
}

// ---------------------------------------------------------------------------
// Conservation and replay
// ---------------------------------------------------------------------------

/// Copper a seat owns: balance plus escrow held.
pub open spec fn seat_total(e: SeatModel) -> int {
    e.balance + e.escrow_held
}

/// The change in a seat's copper that a row promises.
pub open spec fn row_delta(e: SeatModel, row: LedgerRow) -> int {
    let t = row.txn_type@;
    if t == "init"@ {
        row.amount as int
    } else if adds_to_balance(t) {
        row.amount as int
    } else if t == "escrow_hold"@ {
        abs_int(row.amount as int)
    } else if t == "escrow_release"@ {
        let left = e.escrow_held - row.amount;
        (if left > 0 { left } else { 0 }) - e.escrow_held
    } else if t == "reinstate"@ {
        row.amount - seat_total(e)
    } else {
        0
    }
}

/// The sums stay below the saturation points.
pub open spec fn row_unsaturated(e: SeatModel, row: LedgerRow) -> bool {
    &&& adds_to_balance(row.txn_type@) ==> i64::MIN <= e.balance + row.amount <= i64::MAX
    &&& row.txn_type@ == "escrow_hold"@ ==> e.escrow_held + abs_int(row.amount as int)
        <= i64::MAX
}

/// Conservation: every accepted row changes the seat's copper (balance plus
/// escrow held) by exactly the row's promised amount — credits, penalties,
/// decay and adjusts by `amount`, an escrow hold by `|amount|`, an escrow
/// release by what leaves escrow, audit rows (pool destroyed, bounty expire,
/// bans) by nothing. An unknown row type is always refused.
pub proof fn law_apply_row_conservation(e: SeatModel, row: LedgerRow)
    requires
        row_unsaturated(e, row),
        row_fits(e, row),
        e.escrow_held >= 0,
    ensures
        row_effect(e, row) matches Ok(e1) ==> seat_total(e1) == seat_total(e) + row_delta(e, row),
        row_effect(e, row) matches Ok(e1) ==> e1.escrow_held >= 0,
        !(row.txn_type@ == "init"@ || adds_to_balance(row.txn_type@) || row.txn_type@
            == "escrow_hold"@ || row.txn_type@ == "escrow_release"@ || row.txn_type@
            == "reinstate"@ || row.txn_type@ == "pool_destroyed"@ || row.txn_type@
            == "bounty_expire"@ || row.txn_type@ == "system_dispute_ban"@) ==> row_effect(
            e,
            row,
        ) is Err,
{
    let t = row.txn_type@;
    if t == "escrow_release"@ {
        let left = e.escrow_held - row.amount;
        assert(i64::MIN <= left <= i64::MAX);
    }
}

/// A decay row only takes its amount off the balance (saturating): it never
/// marks the seat timed out, whatever the balance comes to. Every other row
/// that moves the balance marks the seat timed out when the balance ends at
/// or below the deficit cap.
pub proof fn law_decay_keeps_time_out(e: SeatModel, row: LedgerRow)
    ensures
        row.txn_type@ == "decay"@ ==> row_effect(e, row) == Ok::<SeatModel, Seq<char>>(
            SeatModel { balance: clamp_i64(e.balance + row.amount) as i64, ..e },
        ),
        row.txn_type@ != "decay"@ && adds_to_balance(row.txn_type@) && clamp_i64(e.balance + row.amount)
            <= DEFICIT_CAP_COPPER ==> (row_effect(e, row) matches Ok(e1) && e1.timed_out),
{
    reveal_strlit("decay");
    reveal_strlit("init");
    assert("decay"@.len() == 5);
    assert("init"@.len() == 4);
    if adds_to_balance(row.txn_type@) {
        reveal_strlit("credit");
        reveal_strlit("passive");
        reveal_strlit("interest");
        reveal_strlit("penalty");
        reveal_strlit("human_adjust");
        reveal_strlit("bounty_stake");
        reveal_strlit("bounty_earn");
        reveal_strlit("bounty_clawback");
        assert("credit"@.len() == 6);
        assert("passive"@.len() == 7);
        assert("interest"@.len() == 8);
        assert("penalty"@.len() == 7);
        assert("human_adjust"@.len() == 12);
        assert("bounty_stake"@.len() == 12);
        assert("bounty_earn"@.len() == 11);
        assert("bounty_clawback"@.len() == 15);
        assert(row.txn_type@ != "init"@);
    }
}

/// Each seat holds at most one `init`: a second one on a seat that has any
/// balance or escrow is refused and the seat is unchanged.
pub proof fn law_init_once(e: SeatModel, row: LedgerRow)
    requires
        row.txn_type@ == "init"@,
        e.balance != 0 || e.items.len() > 0 || e.escrow_held != 0,
    ensures
        row_effect(e, row) == Err::<SeatModel, Seq<char>>(duplicate_init_msg(row)),
{
}

/// The seats after replaying `rows` from an empty snapshot in order.
pub open spec fn replay_spec(rows: Seq<LedgerRow>) -> Result<SeatSeq, Seq<char>>
    decreases rows.len(),
{
    if rows.len() == 0 {
        Ok(Seq::empty())
    } else {
        match replay_spec(rows.drop_last()) {
            Ok(s) => {
                let row = rows.last();
                match row_effect(seat_or_empty(s, row.seat@), row) {
                    Ok(e1) => Ok(seat_put(s, row.seat@, e1)),
                    Err(m) => Err(m),
                }
            },
            Err(m) => Err(m),
        }
    }
}

/// No row of the replay overflows.
pub open spec fn replay_fits(rows: Seq<LedgerRow>) -> bool
    decreases rows.len(),
{
    if rows.len() == 0 {
        true
    } else {
        &&& replay_fits(rows.drop_last())
        &&& replay_spec(rows.drop_last()) matches Ok(s) ==> row_fits(
            seat_or_empty(s, rows.last().seat@),
            rows.last(),
        )
    }
}

/// The largest row id (0 for no rows).
pub open spec fn max_row_id(rows: Seq<LedgerRow>) -> nat
    decreases rows.len(),
{
    if rows.len() == 0 {
        0
    } else {
        let m = max_row_id(rows.drop_last());
        if rows.last().id > m {
            rows.last().id as nat
        } else {
            m
        }
    }
}

/// Rebuild the balances snapshot from ledger rows, in order: each row is
/// applied as `apply_row` does; the first refused row stops the replay with
/// its error. The next transaction id is one past the largest row id
/// (saturating); turn and other counters start at 0.
pub fn replay_balances_from_ledger(rows: &Vec<LedgerRow>) -> (res: Result<BalancesSnapshot, String>)
    requires
        replay_fits(rows@),
    ensures
        match replay_spec(rows@) {
            Ok(seats) => res matches Ok(snap) && snap.seats@ == seats && snap.next_txn_id == (
            if max_row_id(rows@) + 1 > u64::MAX { u64::MAX as nat } else { max_row_id(rows@)
                + 1 }) && snap.turn_counter == 0 && snap.next_escrow_id == 0
                && snap.next_bounty_id == 0,
            Err(m) => res matches Err(s) && s@ == m,
        },
{
    let mut snap = BalancesSnapshot::new();
    let mut max_id: u64 = 0;
    let mut i: usize = 0;
    assert(rows@.take(0) =~= Seq::<LedgerRow>::empty());
    assert(snap.seats@ =~= Seq::<(Seq<char>, SeatModel)>::empty());
    while i < rows.len()
        invariant
            i <= rows.len(),
            replay_fits(rows@),
            replay_spec(rows@.take(i as int)) == Ok::<SeatSeq, Seq<char>>(snap.seats@),
            max_id == max_row_id(rows@.take(i as int)),
            snap.turn_counter == 0,
            snap.next_txn_id == 0,
            snap.next_escrow_id == 0,
            snap.next_bounty_id == 0,
        decreases rows.len() - i,
    {
        proof {
            let t = rows@.take(i + 1);
            assert(t.drop_last() =~= rows@.take(i as int));
            lemma_replay_fits_prefix(rows@, i + 1);
        }
        let r = apply_row(&mut snap, &rows[i]);
        match r {
            Err(m) => {
                proof {
                    lemma_replay_err_extends(rows@, i + 1);
                }
                return Err(m);
            },
            Ok(()) => {},
        }
        if rows[i].id > max_id {
            max_id = rows[i].id;
        }
        i = i + 1;
    }
    assert(rows@.take(rows.len() as int) =~= rows@);
    snap.next_txn_id = max_id.saturating_add(1);
    Ok(snap)
}

proof fn lemma_replay_fits_prefix(rows: Seq<LedgerRow>, n: int)
    requires
        replay_fits(rows),
        0 <= n <= rows.len(),
    ensures
        replay_fits(rows.take(n)),
    decreases rows.len(),
{
    if n < rows.len() {
        assert(rows.drop_last().take(n) =~= rows.take(n));
        lemma_replay_fits_prefix(rows.drop_last(), n);
    } else {
        assert(rows.take(n) =~= rows);
    }
}

proof fn lemma_replay_err_extends(rows: Seq<LedgerRow>, n: int)
    requires
        0 <= n <= rows.len(),
        replay_spec(rows.take(n)) is Err,
    ensures
        replay_spec(rows) == replay_spec(rows.take(n)),
    decreases rows.len(),
{
    if n < rows.len() {
        assert(rows.drop_last().take(n) =~= rows.take(n));
        lemma_replay_err_extends(rows.drop_last(), n);
    } else {
        assert(rows.take(n) =~= rows);
    }
}

// ---------------------------------------------------------------------------
// Action classification
// ---------------------------------------------------------------------------

/// Strip every trailing `.`.
pub open spec fn strip_dots(s: Seq<char>) -> Seq<char>
    decreases s.len(),
{
    if s.len() > 0 && s.last() == '.' {
        strip_dots(s.drop_last())
    } else {
        s
    }
}

pub open spec fn is_ascii_digit(c: char) -> bool {
    '0' <= c && c <= '9'
}

/// Number of leading ASCII digits.
pub open spec fn digit_run(s: Seq<char>) -> nat
    decreases s.len(),
{
    if s.len() > 0 && is_ascii_digit(s[0]) {
        1 + digit_run(s.drop_first())
    } else {
        0
    }
}

/// Subject of a canonical pass: empty, or `pass` / `passing` with an optional
/// trailing period, ignoring case and surrounding whitespace.
pub open spec fn subject_is_pass(subject: Seq<char>) -> bool {
    let s = trim_seq(subject);
    s.len() == 0 || {
        let l = lowercase_of(s);
        l == "pass"@ || l == "passing"@ || l == "pass."@ || l == "passing."@
    }
}

/// The tail after `read msg <digits>` that makes a canonical pass body.
pub open spec fn read_msg_tail_is_pass(after: Seq<char>) -> bool {
    contains_seq(after, "passing"@) || ((contains_seq(after, "no add from"@) || contains_seq(
        after,
        "no add on"@,
    )) && contains_seq(after, "-lane"@))
}

/// Body of a canonical pass: empty; `pass` / `passing` with optional trailing
/// periods; or `read msg <N>...` followed by `passing`, or by `no add from|on`
/// and `-lane` (ignoring case and surrounding whitespace).
pub open spec fn body_is_pass(body: Seq<char>) -> bool {
    let s = trim_seq(body);
    if s.len() == 0 {
        true
    } else {
        let lower = lowercase_of(s);
        let core = strip_dots(lower);
        if core == "pass"@ || core == "passing"@ {
            true
        } else if has_prefix(lower, "read msg "@) {
            let rest = lower.subrange(9, lower.len() as int);
            let d = digit_run(rest);
            d > 0 && read_msg_tail_is_pass(rest.subrange(d as int, rest.len() as int))
        } else {
            false
        }
    }
}

/// Does the body open with `word`, optionally bracketed, then `:`, `—` or
/// `-` and at least one whitespace (case-insensitive on the body)?
pub open spec fn body_opens_with(body: Seq<char>, word: Seq<char>) -> bool {
    let lower = lowercase_of(trim_start_seq(body));
    let s1 = if has_prefix(lower, "["@) { lower.subrange(1, lower.len() as int) } else { lower };
    if !has_prefix(s1, word) {
        false
    } else {
        let s2 = s1.subrange(word.len() as int, s1.len() as int);
        let s3 = if has_prefix(s2, "]"@) { s2.subrange(1, s2.len() as int) } else { s2 };
        let s4 = trim_start_seq(s3);
        s4.len() > 1 && (s4[0] == ':' || s4[0] == '—' || s4[0] == '-') && is_ws(s4[1])
    }
}

/// Explicit `edit` type, `[edit]` subject, or `edit: ` body.
pub open spec fn looks_like_edit(msg_type: Seq<char>, subject: Seq<char>, body: Seq<char>) -> bool {
    msg_type == "edit"@ || has_prefix(lowercase_of(trim_start_seq(subject)), "[edit]"@)
        || body_opens_with(body, "edit"@)
}

/// Explicit `test` type, `[test]` subject, or `test: ` body.
pub open spec fn looks_like_test(msg_type: Seq<char>, subject: Seq<char>, body: Seq<char>) -> bool {
    msg_type == "test"@ || has_prefix(lowercase_of(trim_start_seq(subject)), "[test]"@)
        || body_opens_with(body, "test"@)
}

/// The classification, in precedence order Exempt > Pass > Edit > Test > Speak.
pub open spec fn classify_spec(
    from: Seq<char>,
    msg_type: Seq<char>,
    subject: Seq<char>,
    body: Seq<char>,
    resolved_to_edit: bool,
) -> ActionKind {
    if has_prefix(from, "human:"@) {
        ActionKind::Exempt
    } else if msg_type == "status"@ && subject_is_pass(subject) && body_is_pass(body) {
        ActionKind::Pass
    } else if looks_like_edit(msg_type, subject, body) {
        ActionKind::Edit
    } else if looks_like_test(msg_type, subject, body) && resolved_to_edit {
        ActionKind::Test
    } else {
        ActionKind::Speak
    }
}

fn lower_chars(v: &Vec<char>) -> (r: Vec<char>)
    ensures
        r@ == lowercase_of(v@),
{
    let s = string_from_chars(v);
    let l = to_lowercase(s.as_str());
    chars_of(l.as_str())
}

fn strip_dots_chars(v: &Vec<char>) -> (r: Vec<char>)
    ensures
        r@ == strip_dots(v@),
{
    let mut n = v.len();
    assert(v@.subrange(0, n as int) =~= v@);
    while n > 0 && v[n - 1] == '.'
        invariant
            n <= v.len(),
            strip_dots(v@) == strip_dots(v@.subrange(0, n as int)),
        decreases n,
    {
        assert(v@.subrange(0, n as int).drop_last() =~= v@.subrange(0, n - 1));
        n = n - 1;
    }
    crate::text::sub_chars(v, 0, n)
}

fn count_digits(v: &Vec<char>) -> (n: usize)
    ensures
        n == digit_run(v@),
        n <= v.len(),
{
    let mut i: usize = 0;
    assert(v@.subrange(0, v.len() as int) =~= v@);
    while i < v.len() && '0' <= v[i] && v[i] <= '9'
        invariant
            i <= v.len(),
            digit_run(v@) == i + digit_run(v@.subrange(i as int, v.len() as int)),
        decreases v.len() - i,
    {
        assert(v@.subrange(i as int, v.len() as int).drop_first() =~= v@.subrange(
            i + 1,
            v.len() as int,
        ));
        i = i + 1;
    }
    i
}

fn lit(s: &str) -> (v: Vec<char>)
    ensures
        v@ == s@,
{
    chars_of(s)
}

/// Subject whitelist of the canonical pass.
pub fn is_subject_pass_whitelist(subject: &str) -> (b: bool)
    ensures
        b == subject_is_pass(subject@),
{
    let cs = chars_of(subject);
    let s = trim_chars(&cs);
    if s.len() == 0 {
        return true;
    }
    let l = lower_chars(&s);
    chars_is(&l, "pass") || chars_is(&l, "passing") || chars_is(&l, "pass.") || chars_is(
        &l,
        "passing.",
    )
}

/// Body whitelist of the canonical pass.
pub fn is_body_pass_whitelist(body: &str) -> (b: bool)
    ensures
        b == body_is_pass(body@),
{
    let cs = chars_of(body);
    let s = trim_chars(&cs);
    if s.len() == 0 {
        return true;
    }
    let lower = lower_chars(&s);
    let core = strip_dots_chars(&lower);
    if chars_is(&core, "pass") || chars_is(&core, "passing") {
        return true;
    }
    if chars_starts_with(&lower, &lit("read msg ")) {
        proof {
            reveal_strlit("read msg ");
        }
        let rest = crate::text::sub_chars(&lower, 9, lower.len());
        let d = count_digits(&rest);
        if d > 0 {
            let after = crate::text::sub_chars(&rest, d, rest.len());
            if chars_contains(&after, &lit("passing")) {
                return true;
            }
            let lens = chars_contains(&after, &lit("no add from")) || chars_contains(
                &after,
                &lit("no add on"),
            );
            let lane = chars_contains(&after, &lit("-lane"));
            if lens && lane {
                return true;
            }
        }
    }
    false
}

/// Does the body open with `word` as an action prefix (`word: `, `[word] — `)?
pub fn body_has_action_prefix(body: &str, word: &str) -> (b: bool)
    ensures
        b == body_opens_with(body@, word@),
{
    let cs = chars_of(body);
    let t = trim_start_chars(&cs);
    let lower = lower_chars(&t);
    let s1 = if lower.len() > 0 && lower[0] == '[' {
        crate::text::sub_chars(&lower, 1, lower.len())
    } else {
        crate::text::sub_chars(&lower, 0, lower.len())
    };
    proof {
        reveal_strlit("[");
        reveal_strlit("]");
        assert(lower@.subrange(0, lower@.len() as int) =~= lower@);
        if lower@.len() > 0 {
            assert(has_prefix(lower@, "["@) == (lower@[0] == '[')) by {
                if lower@[0] == '[' {
                    assert(lower@.subrange(0, 1) =~= "["@);
                } else {
                    assert(lower@.subrange(0, 1)[0] != "["@[0]);
                }
            }
        }
    }
    let w = chars_of(word);
    if !chars_starts_with(&s1, &w) {
        return false;
    }
    let s2 = crate::text::sub_chars(&s1, w.len(), s1.len());
    let s3 = if s2.len() > 0 && s2[0] == ']' {
        crate::text::sub_chars(&s2, 1, s2.len())
    } else {
        crate::text::sub_chars(&s2, 0, s2.len())
    };
    proof {
        assert(s2@.subrange(0, s2@.len() as int) =~= s2@);
        if s2@.len() > 0 {
            assert(has_prefix(s2@, "]"@) == (s2@[0] == ']')) by {
                if s2@[0] == ']' {
                    assert(s2@.subrange(0, 1) =~= "]"@);
                } else {
                    assert(s2@.subrange(0, 1)[0] != "]"@[0]);
                }
            }
        }
    }
    let s4 = trim_start_chars(&s3);
    s4.len() > 1 && (s4[0] == ':' || s4[0] == '—' || s4[0] == '-') && is_whitespace(s4[1])
}

fn subject_opens(subject: &str, tag: &str) -> (b: bool)
    ensures
        b == has_prefix(lowercase_of(trim_start_seq(subject@)), tag@),
{
    let cs = chars_of(subject);
    let t = trim_start_chars(&cs);
    let l = lower_chars(&t);
    chars_starts_with(&l, &lit(tag))
}

/// `edit` type, `[edit]` subject, or `edit: ` body.
pub fn is_edit_action(msg_type: &str, subject: &str, body: &str) -> (b: bool)
    ensures
        b == looks_like_edit(msg_type@, subject@, body@),
{
    crate::text::str_eq(msg_type, "edit") || subject_opens(subject, "[edit]")
        || body_has_action_prefix(body, "edit")
}

/// `test` type, `[test]` subject, or `test: ` body.
pub fn is_test_action(msg_type: &str, subject: &str, body: &str) -> (b: bool)
    ensures
        b == looks_like_test(msg_type@, subject@, body@),
{
    crate::text::str_eq(msg_type, "test") || subject_opens(subject, "[test]")
        || body_has_action_prefix(body, "test")
}

/// Classify a send: Exempt for `human:*` senders; Pass for a `status` whose
/// subject and body are both canonical pass text; then Edit; then Test when
/// the linked edit resolved; else Speak.
pub fn classify_action(
    from: &str,
    msg_type: &str,
    subject: &str,
    body: &str,
    resolved_to_edit: bool,
) -> (k: ActionKind)
    ensures
        k == classify_spec(from@, msg_type@, subject@, body@, resolved_to_edit),
{
    let f = chars_of(from);
    if chars_starts_with(&f, &lit("human:")) {
        return ActionKind::Exempt;
    }
    if crate::text::str_eq(msg_type, "status") {
        let subject_in_whitelist = is_subject_pass_whitelist(subject);
        let body_in_whitelist = is_body_pass_whitelist(body);
        if subject_in_whitelist && body_in_whitelist {
            return ActionKind::Pass;
        }
    }
    if is_edit_action(msg_type, subject, body) {
        return ActionKind::Edit;
    }
    if is_test_action(msg_type, subject, body) && resolved_to_edit {
        return ActionKind::Test;
    }
    ActionKind::Speak
}

/// Classify with edit detection: a detected edit outranks every arm but the
/// human exemption; otherwise as `classify_action`.
pub fn classify_action_detected(
    from: &str,
    msg_type: &str,
    subject: &str,
    body: &str,
    resolved_to_edit: bool,
    has_pending_edit: bool,
) -> (k: ActionKind)
    ensures
        k == (if !has_prefix(from@, "human:"@) && has_pending_edit {
            ActionKind::Edit
        } else {
            classify_spec(from@, msg_type@, subject@, body@, resolved_to_edit)
        }),
{
    let f = chars_of(from);
    if !chars_starts_with(&f, &lit("human:")) && has_pending_edit {
        return ActionKind::Edit;
    }
    classify_action(from, msg_type, subject, body, resolved_to_edit)
}

/// Precedence: a human sender is always exempt, even with a detected edit; a
/// detected edit from any other sender is always an Edit; a Pass needs a
/// `status` type; a Test needs a resolved linked edit.
pub proof fn law_classify_precedence(
    from: Seq<char>,
    msg_type: Seq<char>,
    subject: Seq<char>,
    body: Seq<char>,
    resolved: bool,
)
    ensures
        has_prefix(from, "human:"@) ==> classify_spec(from, msg_type, subject, body, resolved)
            == ActionKind::Exempt,
        classify_spec(from, msg_type, subject, body, resolved) == ActionKind::Pass ==> msg_type
            == "status"@,
        classify_spec(from, msg_type, subject, body, resolved) == ActionKind::Test ==> resolved,
        msg_type == "edit"@ && !has_prefix(from, "human:"@) && msg_type != "status"@
            ==> classify_spec(from, msg_type, subject, body, resolved) == ActionKind::Edit,
{
}

// ---------------------------------------------------------------------------
// Economy settings (runtime-tunable constants; the constants above are defaults)
// ---------------------------------------------------------------------------

/// Live economy settings. Every field defaults to the constant of the same name.
#[derive(Debug, Clone, Copy)]
pub struct EconomySettings {
    pub starting_balance_copper: i64,
    pub deficit_cap_copper: i64,
    pub passive_per_tick_copper: i64,
    pub pass_earn_copper: i64,
    pub speak_earn_copper: i64,
    pub edit_earn_copper: i64,
    pub test_earn_copper: i64,
    pub edit_line_bonus_threshold: u64,
    pub pass_escrow_ticks: u64,
    pub speak_escrow_ticks: u64,
    pub edit_escrow_ticks: u64,
    pub test_escrow_ticks: u64,
    pub interest_min_held_copper: i64,
    pub interest_per_10_copper_held: i64,
    pub pass_body_len_threshold: usize,
    pub objection_cost_copper: i64,
    pub dispute_speech_cost_copper: i64,
    pub dispute_edit_cost_copper: i64,
    pub judge_cost_per_party: i64,
    pub judge_auto_invoke_threshold: i64,
    pub system_dispute_cost: i64,
    pub system_dispute_reward: i64,
    pub system_dispute_penalty: i64,
    pub system_dispute_ban_turns: u64,
    pub clawback_percent: u64,
    pub retro_pass_penalty_copper: i64,
    pub retro_pass_scan_window_turns: u64,
    pub coliability_test_penalty_copper: i64,
    pub bounty_claim_stake_percent: u64,
    pub bounty_abandon_loss_percent: u64,
    pub bounty_reject_loss_percent: u64,
    pub bounty_objection_clawback_percent: u64,
    pub decay_copper_pct_per_turn_tenths: i64,
    pub decay_silver_pct_per_turn_tenths: i64,
    pub decay_floor_copper: i64,
    pub oxford_default_winning_reward_copper: i64,
    pub oxford_turn_soft_limit_secs: u64,
    pub oxford_turn_hard_limit_secs: u64,
    pub oxford_audience_vote_window_secs: u64,
    pub oxford_moderator_vacancy_timeout_secs: u64,
    pub oxford_react_rate_limit_per_min: u64,
}

/// Every field holds its documented default.
pub open spec fn is_default_settings(s: EconomySettings) -> bool {
    &&& s.starting_balance_copper == STARTING_BALANCE_COPPER
    &&& s.deficit_cap_copper == DEFICIT_CAP_COPPER
    &&& s.passive_per_tick_copper == PASSIVE_PER_TICK_COPPER
    &&& s.pass_earn_copper == PASS_EARN_COPPER
    &&& s.speak_earn_copper == SPEAK_EARN_COPPER
    &&& s.edit_earn_copper == EDIT_EARN_COPPER
    &&& s.test_earn_copper == TEST_EARN_COPPER
    &&& s.edit_line_bonus_threshold == EDIT_LINE_BONUS_THRESHOLD
    &&& s.pass_escrow_ticks == PASS_ESCROW_TICKS
    &&& s.speak_escrow_ticks == SPEAK_ESCROW_TICKS
    &&& s.edit_escrow_ticks == EDIT_ESCROW_TICKS
    &&& s.test_escrow_ticks == TEST_ESCROW_TICKS
    &&& s.interest_min_held_copper == INTEREST_MIN_HELD_COPPER
    &&& s.interest_per_10_copper_held == INTEREST_PER_10_COPPER_HELD
    &&& s.pass_body_len_threshold == PASS_BODY_LEN_THRESHOLD
    &&& s.objection_cost_copper == OBJECTION_COST_COPPER
    &&& s.dispute_speech_cost_copper == DISPUTE_SPEECH_COST_COPPER
    &&& s.dispute_edit_cost_copper == DISPUTE_EDIT_COST_COPPER
    &&& s.judge_cost_per_party == JUDGE_COST_PER_PARTY
    &&& s.judge_auto_invoke_threshold == JUDGE_AUTO_INVOKE_THRESHOLD
    &&& s.system_dispute_cost == SYSTEM_DISPUTE_COST
    &&& s.system_dispute_reward == SYSTEM_DISPUTE_REWARD
    &&& s.system_dispute_penalty == SYSTEM_DISPUTE_PENALTY
    &&& s.system_dispute_ban_turns == SYSTEM_DISPUTE_BAN_TURNS
    &&& s.clawback_percent == CLAWBACK_PERCENT
    &&& s.retro_pass_penalty_copper == RETRO_PASS_PENALTY_COPPER
    &&& s.retro_pass_scan_window_turns == RETRO_PASS_SCAN_WINDOW_TURNS
    &&& s.coliability_test_penalty_copper == COLIABILITY_TEST_PENALTY_COPPER
    &&& s.bounty_claim_stake_percent == BOUNTY_CLAIM_STAKE_PERCENT
    &&& s.bounty_abandon_loss_percent == BOUNTY_ABANDON_LOSS_PERCENT
    &&& s.bounty_reject_loss_percent == BOUNTY_REJECT_LOSS_PERCENT
    &&& s.bounty_objection_clawback_percent == BOUNTY_OBJECTION_CLAWBACK_PERCENT
    &&& s.decay_copper_pct_per_turn_tenths == DECAY_COPPER_PCT_PER_TURN_TENTHS
    &&& s.decay_silver_pct_per_turn_tenths == DECAY_SILVER_PCT_PER_TURN_TENTHS
    &&& s.decay_floor_copper == DECAY_FLOOR_COPPER
    &&& s.oxford_default_winning_reward_copper == OXFORD_DEFAULT_WINNING_REWARD_COPPER
    &&& s.oxford_turn_soft_limit_secs == OXFORD_TURN_SOFT_LIMIT_SECS
    &&& s.oxford_turn_hard_limit_secs == OXFORD_TURN_HARD_LIMIT_SECS
    &&& s.oxford_audience_vote_window_secs == OXFORD_AUDIENCE_VOTE_WINDOW_SECS
    &&& s.oxford_moderator_vacancy_timeout_secs == OXFORD_MODERATOR_VACANCY_TIMEOUT_SECS
    &&& s.oxford_react_rate_limit_per_min == OXFORD_REACT_RATE_LIMIT_PER_MIN
}

impl EconomySettings {
    /// The defaults.
    pub fn defaults() -> (s: EconomySettings)
        ensures
            is_default_settings(s),
    {
        EconomySettings {
            starting_balance_copper: STARTING_BALANCE_COPPER,
            deficit_cap_copper: DEFICIT_CAP_COPPER,
            passive_per_tick_copper: PASSIVE_PER_TICK_COPPER,
            pass_earn_copper: PASS_EARN_COPPER,
            speak_earn_copper: SPEAK_EARN_COPPER,
            edit_earn_copper: EDIT_EARN_COPPER,
            test_earn_copper: TEST_EARN_COPPER,
            edit_line_bonus_threshold: EDIT_LINE_BONUS_THRESHOLD,
            pass_escrow_ticks: PASS_ESCROW_TICKS,
            speak_escrow_ticks: SPEAK_ESCROW_TICKS,
            edit_escrow_ticks: EDIT_ESCROW_TICKS,
            test_escrow_ticks: TEST_ESCROW_TICKS,
            interest_min_held_copper: INTEREST_MIN_HELD_COPPER,
            interest_per_10_copper_held: INTEREST_PER_10_COPPER_HELD,
            pass_body_len_threshold: PASS_BODY_LEN_THRESHOLD,
            objection_cost_copper: OBJECTION_COST_COPPER,
            dispute_speech_cost_copper: DISPUTE_SPEECH_COST_COPPER,
            dispute_edit_cost_copper: DISPUTE_EDIT_COST_COPPER,
            judge_cost_per_party: JUDGE_COST_PER_PARTY,
            judge_auto_invoke_threshold: JUDGE_AUTO_INVOKE_THRESHOLD,
            system_dispute_cost: SYSTEM_DISPUTE_COST,
            system_dispute_reward: SYSTEM_DISPUTE_REWARD,
            system_dispute_penalty: SYSTEM_DISPUTE_PENALTY,
            system_dispute_ban_turns: SYSTEM_DISPUTE_BAN_TURNS,
            clawback_percent: CLAWBACK_PERCENT,
            retro_pass_penalty_copper: RETRO_PASS_PENALTY_COPPER,
            retro_pass_scan_window_turns: RETRO_PASS_SCAN_WINDOW_TURNS,
            coliability_test_penalty_copper: COLIABILITY_TEST_PENALTY_COPPER,
            bounty_claim_stake_percent: BOUNTY_CLAIM_STAKE_PERCENT,
            bounty_abandon_loss_percent: BOUNTY_ABANDON_LOSS_PERCENT,
            bounty_reject_loss_percent: BOUNTY_REJECT_LOSS_PERCENT,
            bounty_objection_clawback_percent: BOUNTY_OBJECTION_CLAWBACK_PERCENT,
            decay_copper_pct_per_turn_tenths: DECAY_COPPER_PCT_PER_TURN_TENTHS,
            decay_silver_pct_per_turn_tenths: DECAY_SILVER_PCT_PER_TURN_TENTHS,
            decay_floor_copper: DECAY_FLOOR_COPPER,
            oxford_default_winning_reward_copper: OXFORD_DEFAULT_WINNING_REWARD_COPPER,
            oxford_turn_soft_limit_secs: OXFORD_TURN_SOFT_LIMIT_SECS,
            oxford_turn_hard_limit_secs: OXFORD_TURN_HARD_LIMIT_SECS,
            oxford_audience_vote_window_secs: OXFORD_AUDIENCE_VOTE_WINDOW_SECS,
            oxford_moderator_vacancy_timeout_secs: OXFORD_MODERATOR_VACANCY_TIMEOUT_SECS,
            oxford_react_rate_limit_per_min: OXFORD_REACT_RATE_LIMIT_PER_MIN,
        }
    }
}

impl Default for EconomySettings {
    fn default() -> (s: EconomySettings)
        ensures
            is_default_settings(s),
    {
        EconomySettings::defaults()
    }
}

/// The defaults satisfy every validator the settings editor applies: no
/// negative interest, a positive starting balance, positive escrow windows,
/// a decay floor at or below the starting balance, an objection affordable at
/// a fifth of the starting balance, a non-positive deficit cap, percentages at
/// most 100, an Oxford hard limit at or above the soft limit, a non-negative
/// winning reward and positive vote window, vacancy timeout and react limit.
pub proof fn law_default_settings_valid(s: EconomySettings)
    requires
        is_default_settings(s),
    ensures
        s.interest_per_10_copper_held >= 0,
        s.starting_balance_copper > 0,
        s.pass_escrow_ticks > 0 && s.speak_escrow_ticks > 0 && s.edit_escrow_ticks > 0
            && s.test_escrow_ticks > 0,
        s.decay_floor_copper <= s.starting_balance_copper,
        s.objection_cost_copper <= s.starting_balance_copper / 5,
        s.deficit_cap_copper <= 0,
        s.bounty_claim_stake_percent <= 100 && s.bounty_abandon_loss_percent <= 100
            && s.bounty_reject_loss_percent <= 100 && s.bounty_objection_clawback_percent <= 100
            && s.clawback_percent <= 100,
        s.oxford_turn_hard_limit_secs >= s.oxford_turn_soft_limit_secs,
        s.oxford_default_winning_reward_copper >= 0,
        s.oxford_audience_vote_window_secs > 0,
        s.oxford_moderator_vacancy_timeout_secs > 0,
        s.oxford_react_rate_limit_per_min > 0,
{
}

// ---------------------------------------------------------------------------
// Decay tax
// ---------------------------------------------------------------------------

/// Copper and silver buckets of a balance (the display split's lower parts).
pub open spec fn copper_bucket(bal: int) -> int {
    sign_of(bal) * (abs_int(bal) % 100)
}

pub open spec fn silver_bucket(bal: int) -> int {
    sign_of(bal) * ((abs_int(bal) % 10000) / 100)
}

/// Copper-row and silver-row decay of one seat in one turn: nothing below the
/// floor; otherwise ceil(copper bucket × copper tenths‰) copper plus
/// ceil(silver bucket × silver tenths‰) silvers (×100), clamped so the
/// balance never drops below the floor; the copper row takes its share first.
pub open spec fn decay_split_spec(bal: int, floor: int, cp: int, sp: int) -> (int, int) {
    if bal < floor {
        (0, 0)
    } else {
        let copper_loss = ceil_div_spec(copper_bucket(bal) * cp, 1000);
        let silver_loss = ceil_div_spec(silver_bucket(bal) * sp, 1000) * 100;
        let total = copper_loss + silver_loss;
        let max_drain = if bal - floor > 0 { bal - floor } else { 0 };
        let clamped = if total > max_drain { max_drain } else { total };
        let c = if copper_loss < clamped { copper_loss } else { clamped };
        if total == 0 || clamped == 0 {
            (0, 0)
        } else {
            (c, clamped - c)
        }
    }
}

/// The decay arithmetic stays in `i64` (only settings far from the defaults
/// can break this).
pub open spec fn decay_fits(bal: int, floor: int, cp: int, sp: int) -> bool {
    bal >= floor ==> {
        let cb = copper_bucket(bal);
        let sb = silver_bucket(bal);
        &&& bal != i64::MIN
        &&& i64::MIN <= cb * cp <= i64::MAX
        &&& i64::MIN <= sb * sp <= i64::MAX
        &&& cb * cp > 0 ==> cb * cp + 1000 <= i64::MAX
        &&& sb * sp > 0 ==> sb * sp + 1000 <= i64::MAX
        &&& ceil_div_spec(sb * sp, 1000) * 100 <= i64::MAX
        &&& ceil_div_spec(cb * cp, 1000) + ceil_div_spec(sb * sp, 1000) * 100 <= i64::MAX
        &&& i64::MIN <= bal - floor <= i64::MAX
    }
}

/// Copper-row and silver-row decay amounts for a balance under `settings`.
pub fn decay_split(bal: i64, settings: &EconomySettings) -> (r: (i64, i64))
    requires
        decay_fits(
            bal as int,
            settings.decay_floor_copper as int,
            settings.decay_copper_pct_per_turn_tenths as int,
            settings.decay_silver_pct_per_turn_tenths as int,
        ),
    ensures
        (r.0 as int, r.1 as int) == decay_split_spec(
            bal as int,
            settings.decay_floor_copper as int,
            settings.decay_copper_pct_per_turn_tenths as int,
            settings.decay_silver_pct_per_turn_tenths as int,
        ),
{
    if bal < settings.decay_floor_copper {
        return (0, 0);
    }
    let display = copper_to_display(bal);
    let copper_loss_cu = ceil_div(display.copper * settings.decay_copper_pct_per_turn_tenths, 1000);
    let silver_loss_silvers = ceil_div(display.silver * settings.decay_silver_pct_per_turn_tenths, 1000);
    proof {
        assert(ceil_div_spec(silver_bucket(bal as int) * settings.decay_silver_pct_per_turn_tenths, 1000) >= 0) by (nonlinear_arith);
        assert(ceil_div_spec(copper_bucket(bal as int) * settings.decay_copper_pct_per_turn_tenths, 1000) >= 0) by (nonlinear_arith);
    }
    let silver_loss_cu = silver_loss_silvers * 100;
    let total_loss = copper_loss_cu + silver_loss_cu;
    if total_loss == 0 {
        return (0, 0);
    }
    let diff = bal - settings.decay_floor_copper;
    let max_drain = if diff > 0 {
        diff
    } else {
        0
    };
    let clamped = if total_loss > max_drain {
        max_drain
    } else {
        total_loss
    };
    if clamped == 0 {
        return (0, 0);
    }
    let c = if copper_loss_cu < clamped {
        copper_loss_cu
    } else {
        clamped
    };
    (c, clamped - c)
}

/// The decay tax never lifts a balance, never pushes a balance at or above
/// the floor below it, and leaves balances under the floor alone (for
/// non-negative rates).
pub proof fn law_decay_floor_and_monotone(bal: int, floor: int, cp: int, sp: int)
    requires
        cp >= 0,
        sp >= 0,
    ensures
        decay_split_spec(bal, floor, cp, sp).0 >= 0,
        decay_split_spec(bal, floor, cp, sp).1 >= 0,
        bal >= floor ==> bal - decay_split_spec(bal, floor, cp, sp).0 - decay_split_spec(
            bal,
            floor,
            cp,
            sp,
        ).1 >= floor,
        bal < floor ==> decay_split_spec(bal, floor, cp, sp) == (0int, 0int),
{
    if bal >= floor {
        let cb = copper_bucket(bal);
        let sb = silver_bucket(bal);
        lemma_buckets_sign(bal);
        assert(ceil_div_spec(cb * cp, 1000) >= 0) by (nonlinear_arith);
        assert(ceil_div_spec(sb * sp, 1000) >= 0) by (nonlinear_arith);
    }
}

proof fn lemma_buckets_sign(bal: int)
    ensures
        bal >= 0 ==> copper_bucket(bal) >= 0 && silver_bucket(bal) >= 0,
        bal < 0 ==> copper_bucket(bal) <= 0 && silver_bucket(bal) <= 0,
{
    let a = abs_int(bal);
    assert(a % 10000 >= 0);
    assert((a % 10000) / 100 >= 0);
}

/// Gold is a safe haven: a non-negative balance made only of whole gold
/// (a multiple of 10,000 copper) is never taxed.
pub proof fn law_decay_spares_gold(bal: int, floor: int, cp: int, sp: int)
    requires
        bal >= 0,
        bal % 10000 == 0,
    ensures
        decay_split_spec(bal, floor, cp, sp) == (0int, 0int),
{
    assert(bal % 100 == 0) by (nonlinear_arith)
        requires
            bal % 10000 == 0,
            bal >= 0,
    ;
    assert(copper_bucket(bal) == 0);
    assert(silver_bucket(bal) == 0);
}

/// Under the default rates a seat loses at most 1 copper + 1 silver (101
/// copper) per turn, whatever its balance.
pub proof fn law_decay_bounded_by_default_rates(bal: int, floor: int)
    ensures
        decay_split_spec(bal, floor, 10, 5).0 <= 1,
        decay_split_spec(bal, floor, 10, 5).1 <= 100,
{
    lemma_buckets_sign(bal);
    let cb = copper_bucket(bal);
    let sb = silver_bucket(bal);
    let a = abs_int(bal);
    assert(0 <= a % 100 < 100);
    assert(0 <= (a % 10000) / 100 < 100) by (nonlinear_arith)
        requires
            0 <= a % 10000 < 10000,
    ;
    assert(cb <= 99) by {
        assert(0 <= a % 100 < 100);
        if bal < 0 {
            assert(sign_of(bal) == -1);
            assert(cb == -1 * (a % 100));
        } else {
            assert(sign_of(bal) == 1);
            assert(cb == 1 * (a % 100));
        }
    }
    assert(sb <= 99) by {
        if bal < 0 {
            assert(sign_of(bal) == -1);
            assert(sb == -1 * ((a % 10000) / 100));
        } else {
            assert(sign_of(bal) == 1);
            assert(sb == 1 * ((a % 10000) / 100));
        }
    }
    assert(cb * 10 <= 990) by (nonlinear_arith)
        requires
            cb <= 99,
    ;
    assert(sb * 5 <= 495) by (nonlinear_arith)
        requires
            sb <= 99,
    ;
    assert(ceil_div_spec(cb * 10, 1000) <= 1);
    assert(ceil_div_spec(sb * 5, 1000) <= 1);
    assert(ceil_div_spec(cb * 10, 1000) >= 0);
    assert(ceil_div_spec(sb * 5, 1000) >= 0);
}

// ---------------------------------------------------------------------------
// Row construction
// ---------------------------------------------------------------------------

pub open spec fn opt_text(o: Option<String>) -> Option<Seq<char>> {
    match o {
        Some(s) => Some(s@),
        None => None,
    }
}

/// `r` has exactly these fields (strings by their text).
pub open spec fn row_is(
    r: LedgerRow,
    id: u64,
    txn: Seq<char>,
    seat: Seq<char>,
    amount: int,
    reason: Seq<char>,
    ref_msg: Option<u64>,
    balance_after: int,
    escrow_id: Option<Seq<char>>,
    release_turn: Option<u64>,
    turn: Option<u64>,
    kind: Option<ActionKind>,
    linked: Option<u64>,
    at: Seq<char>,
) -> bool {
    &&& r.id == id
    &&& r.txn_type@ == txn
    &&& r.seat@ == seat
    &&& r.amount == amount
    &&& r.reason@ == reason
    &&& r.ref_msg == ref_msg
    &&& r.balance_after == balance_after
    &&& opt_text(r.escrow_id) == escrow_id
    &&& r.release_turn == release_turn
    &&& r.turn == turn
    &&& r.action_kind == kind
    &&& r.linked_edit_msg == linked
    &&& r.at@ == at
}

/// Build a ledger row.
pub fn make_row(
    id: u64,
    txn: &str,
    seat: &str,
    amount: i64,
    reason: String,
    ref_msg: Option<u64>,
    balance_after: i64,
    escrow_id: Option<String>,
    release_turn: Option<u64>,
    turn: Option<u64>,
    kind: Option<ActionKind>,
    linked: Option<u64>,
    at: &str,
) -> (r: LedgerRow)
    ensures
        row_is(
            r,
            id,
            txn@,
            seat@,
            amount as int,
            reason@,
            ref_msg,
            balance_after as int,
            opt_text(escrow_id),
            release_turn,
            turn,
            kind,
            linked,
            at@,
        ),
{
    LedgerRow {
        id,
        txn_type: owned_str(txn),
        seat: owned_str(seat),
        amount,
        reason,
        ref_msg,
        balance_after,
        escrow_id,
        release_turn,
        turn,
        action_kind: kind,
        linked_edit_msg: linked,
        at: owned_str(at),
    }
}

/// A seat first seen by a penalty hook starts at the starting balance.
pub open spec fn seat_or_start(s: SeatSeq, k: Seq<char>, start: i64) -> SeatModel {
    match seat_lookup(s, k) {
        Some(m) => m,
        None => SeatModel { balance: start, ..empty_seat() },
    }
}

/// A balance debit by `amount` (saturating) that trips the deficit flag at or
/// below `cap`.
pub open spec fn debit(e: SeatModel, amount: int, cap: int) -> SeatModel {
    let b = clamp_i64(e.balance - amount) as i64;
    SeatModel { balance: b, timed_out: e.timed_out || b <= cap, ..e }
}

/// `n` successive debits.
pub open spec fn debit_n(e: SeatModel, amount: int, cap: int, n: nat) -> SeatModel
    decreases n,
{
    if n == 0 {
        e
    } else {
        debit(debit_n(e, amount, cap, (n - 1) as nat), amount, cap)
    }
}

/// Take the seat (created at `start` when unseen), for a hook to update.
pub(crate) fn take_or_start(snap: &mut BalancesSnapshot, seat: &str, start: i64) -> (r: SeatBalance)
    ensures
        r@ == seat_or_start(old(snap).seats@, seat@, start),
        final(snap).seats@ == seat_put(old(snap).seats@, seat@, empty_seat()),
        final(snap).turn_counter == old(snap).turn_counter,
        final(snap).next_txn_id == old(snap).next_txn_id,
        final(snap).next_escrow_id == old(snap).next_escrow_id,
        final(snap).next_bounty_id == old(snap).next_bounty_id,
{
    let present = snap.seats.contains_key(seat);
    let mut e = snap.seats.take_seat(seat);
    if !present {
        e.balance = start;
    }
    e
}

pub(crate) fn put_back(snap: &mut BalancesSnapshot, seat: &str, e: SeatBalance)
    ensures
        final(snap).seats@ == seat_put(old(snap).seats@, seat@, e@),
        final(snap).turn_counter == old(snap).turn_counter,
        final(snap).next_txn_id == old(snap).next_txn_id,
        final(snap).next_escrow_id == old(snap).next_escrow_id,
        final(snap).next_bounty_id == old(snap).next_bounty_id,
{
    snap.seats.insert(owned_str(seat), e);
}

fn debit_seat(e: &mut SeatBalance, amount: i64, cap: i64)
    ensures
        final(e)@ == debit(old(e)@, amount as int, cap as int),
{
    e.balance = sat_sub(e.balance, amount);
    if e.balance <= cap {
        e.timed_out = true;
    }
}

// ---------------------------------------------------------------------------
// Retroactive pass penalty
// ---------------------------------------------------------------------------

pub open spec fn is_target_row(r: LedgerRow, target: Seq<char>, msg: u64, kind: ActionKind) -> bool {
    r.seat@ == target && r.ref_msg == Some(msg) && r.action_kind == Some(kind)
}

/// Index of the first ledger row for the target message of the given kind, or -1.
pub open spec fn first_target(ledger: Seq<LedgerRow>, target: Seq<char>, msg: u64, kind: ActionKind) -> int
    decreases ledger.len(),
{
    if ledger.len() == 0 {
        -1
    } else {
        let i = first_target(ledger.drop_last(), target, msg, kind);
        if i >= 0 {
            i
        } else if is_target_row(ledger.last(), target, msg, kind) {
            ledger.len() - 1
        } else {
            -1
        }
    }
}

/// A pass by the target inside the turn window `[from, to)`.
pub open spec fn in_pass_window(r: LedgerRow, target: Seq<char>, from: u64, to: u64) -> bool {
    &&& r.seat@ == target
    &&& r.action_kind == Some(ActionKind::Pass)
    &&& r.turn matches Some(t) && from <= t && t < to
}

/// The target's passes inside the window, in ledger order.
pub open spec fn window_passes(ledger: Seq<LedgerRow>, target: Seq<char>, from: u64, to: u64) -> Seq<LedgerRow>
    decreases ledger.len(),
{
    if ledger.len() == 0 {
        Seq::empty()
    } else if in_pass_window(ledger.last(), target, from, to) {
        window_passes(ledger.drop_last(), target, from, to).push(ledger.last())
    } else {
        window_passes(ledger.drop_last(), target, from, to)
    }
}

/// The passes a retro penalty punishes: none unless the target is
/// adversarial and its disputed message is a Speak row carrying a turn;
/// otherwise every pass of the target in the `retro window` turns before it.
pub open spec fn retro_passes(
    ledger: Seq<LedgerRow>,
    adversarial: bool,
    target: Seq<char>,
    msg: u64,
    window: u64,
) -> Seq<LedgerRow> {
    let i = first_target(ledger, target, msg, ActionKind::Speak);
    if !adversarial || i < 0 {
        Seq::empty()
    } else {
        match ledger[i].turn {
            Some(t) => window_passes(ledger, target, (if t >= window { t - window } else { 0 }) as u64, t),
            None => Seq::empty(),
        }
    }
}

pub open spec fn retro_reason(dispute_id: Seq<char>) -> Seq<char> {
    "adversarial pass (retro from "@ + dispute_id + ")"@
}

fn find_target(ledger: &Vec<LedgerRow>, target: &str, msg: u64, kind: ActionKind) -> (r: Option<usize>)
    ensures
        match r {
            Some(i) => i as int == first_target(ledger@, target@, msg, kind) && i < ledger@.len(),
            None => first_target(ledger@, target@, msg, kind) == -1,
        },
{
    let mut i: usize = 0;
    assert(ledger@.take(0) =~= Seq::<LedgerRow>::empty());
    while i < ledger.len()
        invariant
            i <= ledger.len(),
            first_target(ledger@.take(i as int), target@, msg, kind) == -1,
        decreases ledger.len() - i,
    {
        let r = &ledger[i];
        proof {
            assert(ledger@.take(i + 1).drop_last() =~= ledger@.take(i as int));
        }
        if crate::text::str_eq(r.seat.as_str(), target) && r.ref_msg == Some(msg) && r.action_kind
            == Some(kind) {
            proof {
                lemma_first_target_prefix(ledger@, i as int + 1, target@, msg, kind);
            }
            return Some(i);
        }
        i = i + 1;
    }
    assert(ledger@.take(ledger.len() as int) =~= ledger@);
    None
}

proof fn lemma_first_target_prefix(s: Seq<LedgerRow>, n: int, target: Seq<char>, msg: u64, kind: ActionKind)
    requires
        0 <= n <= s.len(),
        first_target(s.take(n), target, msg, kind) >= 0,
    ensures
        first_target(s, target, msg, kind) == first_target(s.take(n), target, msg, kind),
    decreases s.len(),
{
    if n < s.len() {
        assert(s.drop_last().take(n) =~= s.take(n));
        lemma_first_target_prefix(s.drop_last(), n, target, msg, kind);
    } else {
        assert(s.take(n) =~= s);
    }
}

fn build_text2(a: &str, b: &str, c: &str) -> (r: String)
    ensures
        r@ == a@ + b@ + c@,
{
    let mut v: Vec<char> = Vec::new();
    push_str(&mut v, a);
    push_str(&mut v, b);
    push_str(&mut v, c);
    string_from_chars(&v)
}

/// Retroactive pass penalty (pure part of the hook). When the disputed
/// message is the adversarial target's Speak row with a turn, every Pass row
/// of the target inside the scan window `[turn - window, turn)` costs the
/// target `retro_pass_penalty_copper` (the seat starts at the starting
/// balance if unseen; the deficit cap trips `timed_out`). Returns one
/// `penalty` row per punished pass, numbered from `next_txn_id`.
pub fn emit_retro_pass_penalties(
    snap: &mut BalancesSnapshot,
    ledger: &Vec<LedgerRow>,
    settings: &EconomySettings,
    adversarial: bool,
    target_seat: &str,
    target_msg: u64,
    dispute_id: &str,
    now: &str,
) -> (rows: Vec<LedgerRow>)
    requires
        old(snap).next_txn_id + retro_passes(ledger@, adversarial, target_seat@, target_msg,
            settings.retro_pass_scan_window_turns).len() <= u64::MAX,
        settings.retro_pass_penalty_copper != i64::MIN,
    ensures
        ({
            let passes = retro_passes(ledger@, adversarial, target_seat@, target_msg, settings.retro_pass_scan_window_turns);
            let start = seat_or_start(old(snap).seats@, target_seat@, settings.starting_balance_copper);
            let p = settings.retro_pass_penalty_copper as int;
            let cap = settings.deficit_cap_copper as int;
            &&& rows@.len() == passes.len()
            &&& final(snap).next_txn_id == old(snap).next_txn_id + passes.len()
            &&& final(snap).turn_counter == old(snap).turn_counter
            &&& final(snap).next_escrow_id == old(snap).next_escrow_id
            &&& final(snap).next_bounty_id == old(snap).next_bounty_id
            &&& passes.len() == 0 ==> final(snap).seats@ == old(snap).seats@
            &&& passes.len() > 0 ==> final(snap).seats@ == seat_put(old(snap).seats@, target_seat@, debit_n(start, p, cap, passes.len()))
            &&& forall|i: int| 0 <= i < rows@.len() ==> row_is(
                #[trigger] rows@[i],
                (old(snap).next_txn_id + i) as u64,
                "penalty"@,
                target_seat@,
                -p,
                retro_reason(dispute_id@),
                match passes[i].ref_msg { Some(m) => Some(m), None => Some(target_msg) },
                debit_n(start, p, cap, (i + 1) as nat).balance as int,
                None,
                None,
                Some(old(snap).turn_counter),
                Some(ActionKind::Penalty),
                None,
                now@,
            )
        }),
{
    let mut rows: Vec<LedgerRow> = Vec::new();
    if !adversarial {
        return rows;
    }
    let ti = match find_target(ledger, target_seat, target_msg, ActionKind::Speak) {
        Some(i) => i,
        None => return rows,
    };
    let target_turn = match ledger[ti].turn {
        Some(t) => t,
        None => return rows,
    };
    let from_turn = target_turn.saturating_sub(settings.retro_pass_scan_window_turns);
    let ghost passes = window_passes(ledger@, target_seat@, from_turn, target_turn);
    assert(passes == retro_passes(ledger@, adversarial, target_seat@, target_msg, settings.retro_pass_scan_window_turns));
    let ghost s0 = old(snap).seats@;
    let ghost start = seat_or_start(s0, target_seat@, settings.starting_balance_copper);
    let ghost p = settings.retro_pass_penalty_copper as int;
    let ghost cap = settings.deficit_cap_copper as int;
    let reason_text = build_text2("adversarial pass (retro from ", dispute_id, ")");
    let mut i: usize = 0;
    assert(ledger@.take(0) =~= Seq::<LedgerRow>::empty());
    snap.seats.labels_are_distinct();
    while i < ledger.len()
        invariant
            i <= ledger.len(),
            passes == window_passes(ledger@, target_seat@, from_turn, target_turn),
            passes.len() + old(snap).next_txn_id <= u64::MAX,
            rows@.len() == window_passes(ledger@.take(i as int), target_seat@, from_turn, target_turn).len(),
            snap.next_txn_id == old(snap).next_txn_id + rows@.len(),
            snap.turn_counter == old(snap).turn_counter,
            snap.next_escrow_id == old(snap).next_escrow_id,
            snap.next_bounty_id == old(snap).next_bounty_id,
            seats_distinct(s0),
            start == seat_or_start(s0, target_seat@, settings.starting_balance_copper),
            p == settings.retro_pass_penalty_copper as int,
            settings.retro_pass_penalty_copper != i64::MIN,
            cap == settings.deficit_cap_copper as int,
            reason_text@ == retro_reason(dispute_id@),
            rows@.len() == 0 ==> snap.seats@ == s0,
            rows@.len() > 0 ==> snap.seats@ == seat_put(s0, target_seat@, debit_n(start, p, cap, rows@.len() as nat)),
            forall|j: int| 0 <= j < rows@.len() ==> row_is(
                #[trigger] rows@[j],
                (old(snap).next_txn_id + j) as u64,
                "penalty"@,
                target_seat@,
                -p,
                retro_reason(dispute_id@),
                match window_passes(ledger@, target_seat@, from_turn, target_turn)[j].ref_msg { Some(m) => Some(m), None => Some(target_msg) },
                debit_n(start, p, cap, (j + 1) as nat).balance as int,
                None,
                None,
                Some(old(snap).turn_counter),
                Some(ActionKind::Penalty),
                None,
                now@,
            ),
        decreases ledger.len() - i,
    {
        proof {
            assert(ledger@.take(i + 1).drop_last() =~= ledger@.take(i as int));
            lemma_window_prefix(ledger@, i as int + 1, target_seat@, from_turn, target_turn);
            lemma_window_prefix(ledger@, i as int, target_seat@, from_turn, target_turn);
        }
        let r = &ledger[i];
        let qualifies = crate::text::str_eq(r.seat.as_str(), target_seat) && r.action_kind == Some(
            ActionKind::Pass,
        ) && match r.turn {
            Some(t) => from_turn <= t && t < target_turn,
            None => false,
        };
        if qualifies {
            let ghost before = snap.seats@;
            let ghost n = rows@.len();
            let mut e = take_or_start(snap, target_seat, settings.starting_balance_copper);
            proof {
                if n > 0 {
                    lemma_seat_put(s0, target_seat@, debit_n(start, p, cap, n as nat));
                } else {
                }
            }
            debit_seat(&mut e, settings.retro_pass_penalty_copper, settings.deficit_cap_copper);
            let bal = e.balance;
            put_back(snap, target_seat, e);
            proof {
                lemma_seat_put_twice(before, target_seat@, empty_seat(), debit_n(start, p, cap, (n + 1) as nat));
                if n > 0 {
                    lemma_seat_put_twice(s0, target_seat@, debit_n(start, p, cap, n as nat), debit_n(start, p, cap, (n + 1) as nat));
                }
            }
            let id = snap.next_txn_id;
            snap.next_txn_id = snap.next_txn_id + 1;
            let refm = match r.ref_msg {
                Some(m) => Some(m),
                None => Some(target_msg),
            };
            let row = make_row(
                id,
                "penalty",
                target_seat,
                -settings.retro_pass_penalty_copper,
                reason_text.clone(),
                refm,
                bal,
                None,
                None,
                Some(snap.turn_counter),
                Some(ActionKind::Penalty),
                None,
                now,
            );
            rows.push(row);
        }
        i = i + 1;
    }
    assert(ledger@.take(ledger.len() as int) =~= ledger@);
    rows
}

proof fn lemma_window_prefix(s: Seq<LedgerRow>, n: int, target: Seq<char>, from: u64, to: u64)
    requires
        0 <= n <= s.len(),
    ensures
        window_passes(s.take(n), target, from, to).len() <= window_passes(s, target, from, to).len(),
        forall|j: int| 0 <= j < window_passes(s.take(n), target, from, to).len()
            ==> window_passes(s.take(n), target, from, to)[j] == window_passes(s, target, from, to)[j],
    decreases s.len(),
{
    if n < s.len() {
        assert(s.drop_last().take(n) =~= s.take(n));
        lemma_window_prefix(s.drop_last(), n, target, from, to);
    } else {
        assert(s.take(n) =~= s);
    }
}

// ---------------------------------------------------------------------------
// Co-liability penalty
// ---------------------------------------------------------------------------

pub open spec fn certifies(r: LedgerRow, msg: u64) -> bool {
    r.action_kind == Some(ActionKind::Test) && r.linked_edit_msg == Some(msg)
}

/// Seats that certified the edit `msg`, each once, in order of first Test row.
pub open spec fn certifiers(ledger: Seq<LedgerRow>, msg: u64) -> Seq<Seq<char>>
    decreases ledger.len(),
{
    if ledger.len() == 0 {
        Seq::empty()
    } else {
        let t = certifiers(ledger.drop_last(), msg);
        if certifies(ledger.last(), msg) && !t.contains(ledger.last().seat@) {
            t.push(ledger.last().seat@)
        } else {
            t
        }
    }
}

/// The testers penalized: the certifiers, when the disputed message of the
/// target is an Edit row; nobody otherwise.
pub open spec fn liable_testers(ledger: Seq<LedgerRow>, target: Seq<char>, msg: u64) -> Seq<Seq<char>> {
    if first_target(ledger, target, msg, ActionKind::Edit) >= 0 {
        certifiers(ledger, msg)
    } else {
        Seq::empty()
    }
}

/// Seats after debiting each tester once, from its state before the hook.
pub open spec fn liable_seats(s0: SeatSeq, testers: Seq<Seq<char>>, start: i64, pen: int, cap: int) -> SeatSeq
    decreases testers.len(),
{
    if testers.len() == 0 {
        s0
    } else {
        seat_put(
            liable_seats(s0, testers.drop_last(), start, pen, cap),
            testers.last(),
            debit(seat_or_start(s0, testers.last(), start), pen, cap),
        )
    }
}

pub open spec fn coliability_reason(msg: u64) -> Seq<char> {
    "co-liability — tested bad edit msg #"@ + dec(msg as nat)
}

proof fn lemma_liable_seats_other(s0: SeatSeq, testers: Seq<Seq<char>>, start: i64, pen: int, cap: int, k: Seq<char>)
    requires
        seats_distinct(s0),
        !testers.contains(k),
    ensures
        seats_distinct(liable_seats(s0, testers, start, pen, cap)),
        seat_lookup(liable_seats(s0, testers, start, pen, cap), k) == seat_lookup(s0, k),
    decreases testers.len(),
{
    if testers.len() > 0 {
        assert(!testers.drop_last().contains(k)) by {
            if testers.drop_last().contains(k) {
                let j = choose|j: int| 0 <= j < testers.drop_last().len() && testers.drop_last()[j] == k;
                assert(testers[j] == k);
            }
        }
        lemma_liable_seats_other(s0, testers.drop_last(), start, pen, cap, k);
        assert(testers.last() != k) by {
            if testers.last() == k {
                assert(testers[testers.len() - 1] == k);
            }
        }
        lemma_seat_put(liable_seats(s0, testers.drop_last(), start, pen, cap), testers.last(),
            debit(seat_or_start(s0, testers.last(), start), pen, cap));
    }
}

proof fn lemma_liable_distinct(s0: SeatSeq, testers: Seq<Seq<char>>, start: i64, pen: int, cap: int)
    requires
        seats_distinct(s0),
    ensures
        seats_distinct(liable_seats(s0, testers, start, pen, cap)),
    decreases testers.len(),
{
    if testers.len() > 0 {
        lemma_liable_distinct(s0, testers.drop_last(), start, pen, cap);
        lemma_seat_put(liable_seats(s0, testers.drop_last(), start, pen, cap), testers.last(),
            debit(seat_or_start(s0, testers.last(), start), pen, cap));
    }
}

proof fn lemma_certifiers_prefix(s: Seq<LedgerRow>, n: int, msg: u64)
    requires
        0 <= n <= s.len(),
    ensures
        certifiers(s.take(n), msg).len() <= certifiers(s, msg).len(),
        forall|j: int| 0 <= j < certifiers(s.take(n), msg).len() ==> certifiers(s.take(n), msg)[j]
            == certifiers(s, msg)[j],
    decreases s.len(),
{
    if n < s.len() {
        assert(s.drop_last().take(n) =~= s.take(n));
        lemma_certifiers_prefix(s.drop_last(), n, msg);
    } else {
        assert(s.take(n) =~= s);
    }
}

fn contains_label(v: &Vec<String>, k: &str) -> (b: bool)
    ensures
        b == v@.map_values(|x: String| x@).contains(k@),
{
    let ghost m = v@.map_values(|x: String| x@);
    let mut i: usize = 0;
    while i < v.len()
        invariant
            i <= v.len(),
            m == v@.map_values(|x: String| x@),
            forall|j: int| 0 <= j < i ==> m[j] != k@,
        decreases v.len() - i,
    {
        if crate::text::str_eq(v[i].as_str(), k) {
            assert(m[i as int] == k@);
            return true;
        }
        i = i + 1;
    }
    false
}

/// Co-liability penalty (pure part of the hook). When the target's disputed
/// message is an Edit row, each seat that certified that edit with a Test row
/// pays `coliability_test_penalty_copper` once, in order of its first Test
/// row (unseen seats start at the starting balance; the deficit cap trips
/// `timed_out`). Returns one `penalty` row per tester.
pub fn emit_coliability_penalties(
    snap: &mut BalancesSnapshot,
    ledger: &Vec<LedgerRow>,
    settings: &EconomySettings,
    target_seat: &str,
    target_msg: u64,
    now: &str,
) -> (rows: Vec<LedgerRow>)
    requires
        old(snap).next_txn_id + liable_testers(ledger@, target_seat@, target_msg).len() <= u64::MAX,
        settings.coliability_test_penalty_copper != i64::MIN,
    ensures
        ({
            let testers = liable_testers(ledger@, target_seat@, target_msg);
            let start = settings.starting_balance_copper;
            let p = settings.coliability_test_penalty_copper as int;
            let cap = settings.deficit_cap_copper as int;
            &&& rows@.len() == testers.len()
            &&& final(snap).next_txn_id == old(snap).next_txn_id + testers.len()
            &&& final(snap).turn_counter == old(snap).turn_counter
            &&& final(snap).next_escrow_id == old(snap).next_escrow_id
            &&& final(snap).next_bounty_id == old(snap).next_bounty_id
            &&& final(snap).seats@ == liable_seats(old(snap).seats@, testers, start, p, cap)
            &&& forall|i: int| 0 <= i < rows@.len() ==> row_is(
                #[trigger] rows@[i],
                (old(snap).next_txn_id + i) as u64,
                "penalty"@,
                testers[i],
                -p,
                coliability_reason(target_msg),
                Some(target_msg),
                debit(seat_or_start(old(snap).seats@, testers[i], start), p, cap).balance as int,
                None,
                None,
                Some(old(snap).turn_counter),
                Some(ActionKind::Penalty),
                Some(target_msg),
                now@,
            )
        }),
{
    let mut rows: Vec<LedgerRow> = Vec::new();
    if find_target(ledger, target_seat, target_msg, ActionKind::Edit).is_none() {
        return rows;
    }
    let ghost testers = certifiers(ledger@, target_msg);
    let ghost s0 = old(snap).seats@;
    let ghost start = settings.starting_balance_copper;
    let ghost p = settings.coliability_test_penalty_copper as int;
    let ghost cap = settings.deficit_cap_copper as int;
    let mut reason: Vec<char> = Vec::new();
    push_str(&mut reason, "co-liability — tested bad edit msg #");
    let d = u64_dec(target_msg);
    push_chars(&mut reason, &d);
    let reason_text = string_from_chars(&reason);
    let mut penalized: Vec<String> = Vec::new();
    snap.seats.labels_are_distinct();
    let mut i: usize = 0;
    assert(ledger@.take(0) =~= Seq::<LedgerRow>::empty());
    assert(penalized@.map_values(|x: String| x@) =~= Seq::<Seq<char>>::empty());
    while i < ledger.len()
        invariant
            i <= ledger.len(),
            testers == certifiers(ledger@, target_msg),
            testers.len() + old(snap).next_txn_id <= u64::MAX,
            penalized@.map_values(|x: String| x@) == certifiers(ledger@.take(i as int), target_msg),
            rows@.len() == penalized@.len(),
            snap.next_txn_id == old(snap).next_txn_id + rows@.len(),
            snap.turn_counter == old(snap).turn_counter,
            snap.next_escrow_id == old(snap).next_escrow_id,
            snap.next_bounty_id == old(snap).next_bounty_id,
            seats_distinct(s0),
            start == settings.starting_balance_copper,
            p == settings.coliability_test_penalty_copper as int,
            settings.coliability_test_penalty_copper != i64::MIN,
            cap == settings.deficit_cap_copper as int,
            reason_text@ == coliability_reason(target_msg),
            snap.seats@ == liable_seats(s0, certifiers(ledger@.take(i as int), target_msg), start, p, cap),
            forall|j: int| 0 <= j < rows@.len() ==> row_is(
                #[trigger] rows@[j],
                (old(snap).next_txn_id + j) as u64,
                "penalty"@,
                testers[j],
                -p,
                coliability_reason(target_msg),
                Some(target_msg),
                debit(seat_or_start(s0, testers[j], start), p, cap).balance as int,
                None,
                None,
                Some(old(snap).turn_counter),
                Some(ActionKind::Penalty),
                Some(target_msg),
                now@,
            ),
        decreases ledger.len() - i,
    {
        proof {
            assert(ledger@.take(i + 1).drop_last() =~= ledger@.take(i as int));
            lemma_certifiers_prefix(ledger@, i as int + 1, target_msg);
            lemma_certifiers_prefix(ledger@, i as int, target_msg);
        }
        let r = &ledger[i];
        if r.action_kind == Some(ActionKind::Test) && r.linked_edit_msg == Some(target_msg) {
            if !contains_label(&penalized, r.seat.as_str()) {
                let ghost prev = certifiers(ledger@.take(i as int), target_msg);
                let ghost before = snap.seats@;
                proof {
                    lemma_liable_seats_other(s0, prev, start, p, cap, r.seat@);
                }
                let mut e = take_or_start(snap, r.seat.as_str(), settings.starting_balance_copper);
                debit_seat(&mut e, settings.coliability_test_penalty_copper, settings.deficit_cap_copper);
                let bal = e.balance;
                put_back(snap, r.seat.as_str(), e);
                proof {
                    lemma_seat_put_twice(before, r.seat@, empty_seat(), debit(seat_or_start(s0, r.seat@, start), p, cap));
                    assert(certifiers(ledger@.take(i + 1), target_msg) == prev.push(r.seat@));
                    assert(prev.push(r.seat@).drop_last() =~= prev);
                }
                let id = snap.next_txn_id;
                snap.next_txn_id = snap.next_txn_id + 1;
                let row = make_row(
                    id,
                    "penalty",
                    r.seat.as_str(),
                    -settings.coliability_test_penalty_copper,
                    reason_text.clone(),
                    Some(target_msg),
                    bal,
                    None,
                    None,
                    Some(snap.turn_counter),
                    Some(ActionKind::Penalty),
                    Some(target_msg),
                    now,
                );
                rows.push(row);
                penalized.push(r.seat.clone());
                proof {
                    assert(penalized@.map_values(|x: String| x@) =~= prev.push(r.seat@));
                }
            }
        }
        i = i + 1;
    }
    assert(ledger@.take(ledger.len() as int) =~= ledger@);
    rows
}

// ---------------------------------------------------------------------------
// Bounties
// ---------------------------------------------------------------------------

/// A bounty row (latest row per id is the bounty's state). Status is one of
/// open | claimed | submitted | approved | rejected | expired | abandoned.
#[derive(Debug, Clone)]
pub struct BountyRow {
    pub id: String,
    pub description: String,
    pub amount: i64,
    pub posted_by: String,
    pub deadline_turn: u64,
    pub status: String,
    pub claimant: Option<String>,
    pub claim_stake: i64,
    pub submission_msg: Option<u64>,
    pub approved_by: Option<String>,
    pub last_rejection_reason: Option<String>,
    pub posted_at: String,
    pub resolved_at: Option<String>,
    pub turn_posted: u64,
}

fn clone_opt(o: &Option<String>) -> (r: Option<String>)
    ensures
        r == *o,
{
    match o {
        Some(s) => Some(s.clone()),
        None => None,
    }
}

impl BountyRow {
    /// A field-by-field copy.
    pub fn copy(&self) -> (c: BountyRow)
        ensures
            c == *self,
    {
        BountyRow {
            id: self.id.clone(),
            description: self.description.clone(),
            amount: self.amount,
            posted_by: self.posted_by.clone(),
            deadline_turn: self.deadline_turn,
            status: self.status.clone(),
            claimant: clone_opt(&self.claimant),
            claim_stake: self.claim_stake,
            submission_msg: self.submission_msg,
            approved_by: clone_opt(&self.approved_by),
            last_rejection_reason: clone_opt(&self.last_rejection_reason),
            posted_at: self.posted_at.clone(),
            resolved_at: clone_opt(&self.resolved_at),
            turn_posted: self.turn_posted,
        }
    }
}

/// `b` is `a` with only status, rejection reason and resolution time changed.
pub open spec fn same_bounty_terms(a: BountyRow, b: BountyRow) -> bool {
    &&& b.id == a.id
    &&& b.description == a.description
    &&& b.amount == a.amount
    &&& b.posted_by == a.posted_by
    &&& b.deadline_turn == a.deadline_turn
    &&& b.claimant == a.claimant
    &&& b.claim_stake == a.claim_stake
    &&& b.submission_msg == a.submission_msg
    &&& b.approved_by == a.approved_by
    &&& b.posted_at == a.posted_at
    &&& b.turn_posted == a.turn_posted
}

/// Position of bounty `id`, or -1.
pub open spec fn bounty_index(s: Seq<BountyRow>, id: Seq<char>) -> int
    decreases s.len(),
{
    if s.len() == 0 {
        -1
    } else if s.last().id@ == id {
        s.len() - 1
    } else {
        bounty_index(s.drop_last(), id)
    }
}

/// Replace the bounty with the same id, or append a new one.
pub open spec fn bounty_put(s: Seq<BountyRow>, b: BountyRow) -> Seq<BountyRow> {
    let i = bounty_index(s, b.id@);
    if i >= 0 {
        s.update(i, b)
    } else {
        s.push(b)
    }
}

pub open spec fn bounty_ids_distinct(s: Seq<BountyRow>) -> bool {
    forall|i: int, j: int| 0 <= i < j < s.len() ==> s[i].id@ != s[j].id@
}

proof fn lemma_bounty_index(s: Seq<BountyRow>, id: Seq<char>)
    ensures
        -1 <= bounty_index(s, id) < s.len(),
        bounty_index(s, id) >= 0 ==> s[bounty_index(s, id)].id@ == id,
        bounty_index(s, id) == -1 ==> forall|j: int| 0 <= j < s.len() ==> s[j].id@ != id,
    decreases s.len(),
{
    if s.len() > 0 && s.last().id@ != id {
        lemma_bounty_index(s.drop_last(), id);
        assert forall|j: int| 0 <= j < s.len() && bounty_index(s, id) == -1 implies s[j].id@ != id by {
            if j < s.len() - 1 {
                assert(s[j] == s.drop_last()[j]);
            }
        }
    }
}

proof fn lemma_bounty_index_unique(s: Seq<BountyRow>, id: Seq<char>, j: int)
    requires
        bounty_ids_distinct(s),
        0 <= j < s.len(),
        s[j].id@ == id,
    ensures
        bounty_index(s, id) == j,
{
    lemma_bounty_index(s, id);
}

/// Bounties by id, ids distinct, in the order they were first recorded.
pub struct BountyTable {
    rows: Vec<BountyRow>,
}

impl View for BountyTable {
    type V = Seq<BountyRow>;

    closed spec fn view(&self) -> Seq<BountyRow> {
        self.rows@
    }
}

impl BountyTable {
    #[verifier::type_invariant]
    closed spec fn ids_distinct(&self) -> bool {
        bounty_ids_distinct(self.rows@)
    }

    pub fn new() -> (t: BountyTable)
        ensures
            t@.len() == 0,
    {
        BountyTable { rows: Vec::new() }
    }

    pub fn len(&self) -> (n: usize)
        ensures
            n == self@.len(),
    {
        self.rows.len()
    }

    pub fn ids_are_distinct(&self)
        ensures
            bounty_ids_distinct(self@),
    {
        proof {
            use_type_invariant(self);
        }
    }

    pub fn entry_at(&self, i: usize) -> (r: &BountyRow)
        requires
            i < self@.len(),
        ensures
            *r == self@[i as int],
    {
        &self.rows[i]
    }

    /// Position of bounty `id`.
    pub fn position(&self, id: &str) -> (r: Option<usize>)
        ensures
            match r {
                Some(i) => i == bounty_index(self@, id@) && i < self@.len(),
                None => bounty_index(self@, id@) == -1,
            },
    {
        proof {
            use_type_invariant(self);
        }
        let mut i: usize = 0;
        while i < self.rows.len()
            invariant
                i <= self.rows.len(),
                bounty_ids_distinct(self@),
                self@ == self.rows@,
                forall|j: int| 0 <= j < i ==> self@[j].id@ != id@,
            decreases self.rows.len() - i,
        {
            if crate::text::str_eq(self.rows[i].id.as_str(), id) {
                proof {
                    lemma_bounty_index_unique(self@, id@, i as int);
                }
                return Some(i);
            }
            i = i + 1;
        }
        proof {
            lemma_bounty_index(self@, id@);
            if bounty_index(self@, id@) >= 0 {
                assert(self@[bounty_index(self@, id@)].id@ == id@);
            }
        }
        None
    }

    /// The bounty with id `id`.
    pub fn get(&self, id: &str) -> (r: Option<&BountyRow>)
        ensures
            match r {
                Some(b) => bounty_index(self@, id@) >= 0 && *b == self@[bounty_index(self@, id@)],
                None => bounty_index(self@, id@) == -1,
            },
    {
        match self.position(id) {
            Some(i) => Some(&self.rows[i]),
            None => None,
        }
    }

    /// Record `b` as the latest state of its bounty.
    pub fn upsert(&mut self, b: BountyRow)
        ensures
            final(self)@ == bounty_put(old(self)@, b),
            bounty_ids_distinct(final(self)@),
    {
        proof {
            use_type_invariant(&*self);
            lemma_bounty_index(self@, b.id@);
        }
        let ghost before = self@;
        let pos = self.position(b.id.as_str());
        let mut rows: Vec<BountyRow> = Vec::new();
        std::mem::swap(&mut rows, &mut self.rows);
        match pos {
            Some(i) => {
                rows.set(i, b);
            },
            None => {
                rows.push(b);
            },
        }
        assert(rows@ =~= bounty_put(before, b));
        assert(bounty_ids_distinct(rows@));
        self.rows = rows;
    }
}

/// The latest row of each bounty, after recording `rows` in order.
pub open spec fn bounties_from(rows: Seq<BountyRow>) -> Seq<BountyRow>
    decreases rows.len(),
{
    if rows.len() == 0 {
        Seq::empty()
    } else {
        bounty_put(bounties_from(rows.drop_last()), rows.last())
    }
}

/// The bounties log folded to the latest row per id (a later row replaces
/// the earlier one in place; new ids are appended).
pub fn latest_bounties(rows: Vec<BountyRow>) -> (t: BountyTable)
    ensures
        t@ == bounties_from(rows@),
{
    let ghost all = rows@;
    let total: usize = rows.len();
    let mut rest = rows;
    let mut t = BountyTable::new();
    let mut k: usize = 0;
    assert(all.take(0) =~= Seq::<BountyRow>::empty());
    assert(all.skip(0) =~= all);
    while rest.len() > 0
        invariant
            rest@.len() + k == all.len(),
            all.len() == total,
            rest@ == all.skip(k as int),
            t@ == bounties_from(all.take(k as int)),
        decreases rest@.len(),
    {
        let b = rest.remove(0);
        proof {
            assert(b == all[k as int]);
            assert(rest@ =~= all.skip(k + 1));
            assert(all.take(k + 1).drop_last() =~= all.take(k as int));
            assert(all.take(k + 1).last() == all[k as int]);
        }
        t.upsert(b);
        k = k + 1;
    }
    assert(all.take(all.len() as int) =~= all);
    t
}

/// Open-bounties snapshot: id counter and latest row per bounty.
pub struct OpenBountiesSnapshot {
    pub next_bounty_id: u64,
    pub bounties: BountyTable,
}

impl OpenBountiesSnapshot {
    pub fn new() -> (s: OpenBountiesSnapshot)
        ensures
            s.next_bounty_id == 0,
            s.bounties@.len() == 0,
    {
        OpenBountiesSnapshot { next_bounty_id: 0, bounties: BountyTable::new() }
    }
}

pub open spec fn is_approved_for(b: BountyRow, msg: u64) -> bool {
    b.status@ == "approved"@ && b.submission_msg == Some(msg)
}

/// An approved bounty whose submission is message `msg`, if there is one.
pub fn is_approved_bounty_submission(table: &BountyTable, msg: u64) -> (r: Option<BountyRow>)
    ensures
        match r {
            Some(b) => is_approved_for(b, msg) && table@.contains(b),
            None => forall|i: int| 0 <= i < table@.len() ==> !is_approved_for(#[trigger] table@[i], msg),
        },
{
    let mut i: usize = 0;
    while i < table.len()
        invariant
            i <= table@.len(),
            forall|j: int| 0 <= j < i ==> !is_approved_for(#[trigger] table@[j], msg),
        decreases table@.len() - i,
    {
        let b = table.entry_at(i);
        if crate::text::str_eq(b.status.as_str(), "approved") && b.submission_msg == Some(msg) {
            assert(table@[i as int] == *b);
            return Some(b.copy());
        }
        i = i + 1;
    }
    None
}

/// `i64::saturating_mul`.
pub fn sat_mul(a: i64, b: i64) -> (r: i64)
    ensures
        r == clamp_i64(a * b),
{
    proof {
        let x = a as int;
        let y = b as int;
        assert(-0x8000_0000_0000_0000 <= x <= 0x7fff_ffff_ffff_ffff);
        assert(x * y <= 0x4000_0000_0000_0000_0000_0000_0000_0000 && x * y >= -0x4000_0000_0000_0000_0000_0000_0000_0000) by (nonlinear_arith)
            requires
                -0x8000_0000_0000_0000 <= x <= 0x7fff_ffff_ffff_ffff,
                -0x8000_0000_0000_0000 <= y <= 0x7fff_ffff_ffff_ffff,
        ;
    }
    let p = a as i128 * b as i128;
    if p > i64::MAX as i128 {
        i64::MAX
    } else if p < i64::MIN as i128 {
        i64::MIN
    } else {
        p as i64
    }
}

/// Truncating division by a positive constant.
pub(crate) fn trunc_div(a: i64, b: i64) -> (r: i64)
    requires
        b > 0,
    ensures
        r == tdiv(a as int, b as int),
{
    if a >= 0 {
        a / b
    } else {
        let m = -(a as i128);
        let q = m / (b as i128);
        proof {
            assert(q <= m);
        }
        (-q) as i64
    }
}

/// The clawback on an approved bounty's submission: 90% of its amount.
pub open spec fn clawback_of(amount: i64) -> int {
    tdiv(clamp_i64(amount * BOUNTY_OBJECTION_CLAWBACK_PERCENT as int), 100)
}

/// A balance credit by `amount` (saturating), no deficit check.
pub open spec fn credit(e: SeatModel, amount: int) -> SeatModel {
    SeatModel { balance: clamp_i64(e.balance + amount) as i64, ..e }
}

pub open spec fn clawback_reason(id: Seq<char>, dispute: Seq<char>) -> Seq<char> {
    "bounty "@ + id + " clawback ("@ + dec(BOUNTY_OBJECTION_CLAWBACK_PERCENT as nat) + "% on objection from "@ + dispute + ")"@
}

pub open spec fn clawback_share_reason(id: Seq<char>, share: int, total: int, dispute: Seq<char>) -> Seq<char> {
    "bounty "@ + id + " clawback share ("@ + dec_int(share) + " of "@ + dec_int(total) + " from "@ + dispute + ")"@
}

pub open spec fn clawback_destroyed_reason(id: Seq<char>, d: int, total: int, dispute: Seq<char>) -> Seq<char> {
    "bounty "@ + id + " clawback destroyed share ("@ + dec_int(d) + " of "@ + dec_int(total) + " from "@ + dispute + ")"@
}

/// The result of an objection sustained against an approved bounty's submission.
pub struct ClawbackOutcome {
    /// Clawback amount (0 when the bounty has no claimant).
    pub clawback: i64,
    /// Ledger rows to append, in order.
    pub rows: Vec<LedgerRow>,
    /// The bounty's new state (rejected), when the clawback fired.
    pub updated: Option<BountyRow>,
}

/// What a clawback on `bounty` does: with no claimant nothing changes;
/// otherwise the claimant is debited the clawback, the challenger credited
/// half of it when positive, the rest recorded as destroyed when positive,
/// and the bounty recorded as rejected through the objection `dispute`.
pub open spec fn clawback_effect(
    before: BalancesSnapshot,
    after: BalancesSnapshot,
    bounties_before: OpenBountiesSnapshot,
    bounties_after: OpenBountiesSnapshot,
    bounty: BountyRow,
    challenger: Seq<char>,
    dispute: Seq<char>,
    now: Seq<char>,
    out: ClawbackOutcome,
) -> bool {
    &&& bounty.claimant is None ==> out.clawback == 0 && out.rows@.len() == 0 && out.updated is None
            && after.seats@ == before.seats@ && after.next_txn_id == before.next_txn_id
            && bounties_after.bounties@ == bounties_before.bounties@
    &&& after.turn_counter == before.turn_counter
    &&& bounties_after.next_bounty_id == bounties_before.next_bounty_id
    &&& bounty.claimant matches Some(claimant) ==> ({
            let c = clawback_of(bounty.amount);
            let share = tdiv(c, 2);
            let destroyed = c - share;
            let s0 = before.seats@;
            let e_c = debit(seat_or_start(s0, claimant@, STARTING_BALANCE_COPPER), c, DEFICIT_CAP_COPPER as int);
            let s1 = seat_put(s0, claimant@, e_c);
            let e_h = credit(seat_or_start(s1, challenger, STARTING_BALANCE_COPPER), share);
            let s2 = if share > 0 { seat_put(s1, challenger, e_h) } else { s1 };
            let n = 1 + (if share > 0 { 1int } else { 0 }) + (if destroyed > 0 { 1int } else { 0 });
            let id0 = before.next_txn_id;
            let turn = Some(before.turn_counter);
            &&& out.clawback == c
            &&& after.seats@ == s2
            &&& after.next_txn_id == id0 + n
            &&& out.rows@.len() == n
            &&& row_is(out.rows@[0], id0, "bounty_clawback"@, claimant@, -c, clawback_reason(bounty.id@, dispute),
                    bounty.submission_msg, e_c.balance as int, None, None, turn, Some(ActionKind::BountyClawback), None, now)
            &&& share > 0 ==> row_is(out.rows@[1], (id0 + 1) as u64, "credit"@, challenger, share,
                    clawback_share_reason(bounty.id@, share, c, dispute), bounty.submission_msg, e_h.balance as int,
                    None, None, turn, Some(ActionKind::Credit), None, now)
            &&& destroyed > 0 ==> row_is(out.rows@[n - 1], (id0 + n - 1) as u64, "pool_destroyed"@, "system:pool"@, -destroyed,
                    clawback_destroyed_reason(bounty.id@, destroyed, c, dispute), bounty.submission_msg, 0,
                    None, None, turn, Some(ActionKind::PoolDestroyed), None, now)
            &&& out.updated matches Some(u) && same_bounty_terms(bounty, u) && u.status@ == "rejected"@
                && opt_text(u.last_rejection_reason) == Some("objection sustained ("@ + dispute + ")"@)
                && opt_text(u.resolved_at) == Some(now)
                && bounties_after.bounties@ == bounty_put(bounties_before.bounties@, u)
        })
}

/// Bounty-objection clawback (pure part of the hook) for an approved bounty:
/// with no claimant nothing happens. Otherwise the claimant is debited 90% of
/// the bounty amount (deficit cap trips `timed_out`); the challenger is
/// credited half of that (rounded toward zero) when positive; the rest is
/// recorded as destroyed against `system:pool` when positive; the bounty is
/// recorded as rejected with the dispute as reason, and resolved now.
pub fn emit_bounty_clawback(
    snap: &mut BalancesSnapshot,
    bounties: &mut OpenBountiesSnapshot,
    bounty: &BountyRow,
    challenger_seat: &str,
    dispute_id: &str,
    now: &str,
) -> (out: ClawbackOutcome)
    requires
        old(snap).next_txn_id + 3 <= u64::MAX,
    ensures
        clawback_effect(*old(snap), *final(snap), *old(bounties), *final(bounties), *bounty, challenger_seat@, dispute_id@,
            now@, out),
{
    let claimant = match &bounty.claimant {
        Some(c) => c,
        None => {
            return ClawbackOutcome { clawback: 0, rows: Vec::new(), updated: None };
        },
    };
    let clawback = trunc_div(sat_mul(bounty.amount, BOUNTY_OBJECTION_CLAWBACK_PERCENT as i64), 100);
    proof {
        assert(-i64::MAX <= clawback <= i64::MAX) by {
            let m = clamp_i64(bounty.amount * 90);
            assert(i64::MIN <= m <= i64::MAX);
        }
    }
    let challenger_share = trunc_div(clawback, 2);
    let destroyed_share = clawback - challenger_share;
    let mut rows: Vec<LedgerRow> = Vec::new();
    snap.seats.labels_are_distinct();
    let ghost s0 = snap.seats@;

    // 1. Debit the claimant by the full clawback.
    let mut e = take_or_start(snap, claimant.as_str(), STARTING_BALANCE_COPPER);
    debit_seat(&mut e, clawback, DEFICIT_CAP_COPPER);
    let claimant_after = e.balance;
    let ghost ec = e@;
    put_back(snap, claimant.as_str(), e);
    proof {
        lemma_seat_put_twice(s0, claimant@, empty_seat(), ec);
        lemma_seat_put(s0, claimant@, ec);
    }
    let ghost s1 = snap.seats@;
    let id = snap.next_txn_id;
    snap.next_txn_id = snap.next_txn_id + 1;
    let pct = u64_dec(BOUNTY_OBJECTION_CLAWBACK_PERCENT);
    let mut r1: Vec<char> = Vec::new();
    push_str(&mut r1, "bounty ");
    push_str(&mut r1, bounty.id.as_str());
    push_str(&mut r1, " clawback (");
    push_chars(&mut r1, &pct);
    push_str(&mut r1, "% on objection from ");
    push_str(&mut r1, dispute_id);
    push_str(&mut r1, ")");
    assert(r1@ =~= clawback_reason(bounty.id@, dispute_id@));
    rows.push(make_row(id, "bounty_clawback", claimant.as_str(), -clawback, string_from_chars(&r1),
        bounty.submission_msg, claimant_after, None, None, Some(snap.turn_counter),
        Some(ActionKind::BountyClawback), None, now));

    // 2. Credit the challenger half the clawback.
    if challenger_share > 0 {
        let ghost before = snap.seats@;
        proof {
            lemma_seat_put(s0, claimant@, ec);
        }
        let mut h = take_or_start(snap, challenger_seat, STARTING_BALANCE_COPPER);
        h.balance = sat_add(h.balance, challenger_share);
        let challenger_after = h.balance;
        let ghost eh = h@;
        put_back(snap, challenger_seat, h);
        proof {
            lemma_seat_put_twice(before, challenger_seat@, empty_seat(), eh);
        }
        let cid = snap.next_txn_id;
        snap.next_txn_id = snap.next_txn_id + 1;
        let mut r2: Vec<char> = Vec::new();
        push_str(&mut r2, "bounty ");
        push_str(&mut r2, bounty.id.as_str());
        push_str(&mut r2, " clawback share (");
        let a = i64_dec(challenger_share);
        push_chars(&mut r2, &a);
        push_str(&mut r2, " of ");
        let b = i64_dec(clawback);
        push_chars(&mut r2, &b);
        push_str(&mut r2, " from ");
        push_str(&mut r2, dispute_id);
        push_str(&mut r2, ")");
        assert(r2@ =~= clawback_share_reason(bounty.id@, challenger_share as int, clawback as int, dispute_id@));
        rows.push(make_row(cid, "credit", challenger_seat, challenger_share, string_from_chars(&r2),
            bounty.submission_msg, challenger_after, None, None, Some(snap.turn_counter),
            Some(ActionKind::Credit), None, now));
    }

    // 3. Audit the destroyed share.
    if destroyed_share > 0 {
        let did = snap.next_txn_id;
        snap.next_txn_id = snap.next_txn_id + 1;
        let mut r3: Vec<char> = Vec::new();
        push_str(&mut r3, "bounty ");
        push_str(&mut r3, bounty.id.as_str());
        push_str(&mut r3, " clawback destroyed share (");
        let a = i64_dec(destroyed_share);
        push_chars(&mut r3, &a);
        push_str(&mut r3, " of ");
        let b = i64_dec(clawback);
        push_chars(&mut r3, &b);
        push_str(&mut r3, " from ");
        push_str(&mut r3, dispute_id);
        push_str(&mut r3, ")");
        assert(r3@ =~= clawback_destroyed_reason(bounty.id@, destroyed_share as int, clawback as int, dispute_id@));
        rows.push(make_row(did, "pool_destroyed", "system:pool", -destroyed_share, string_from_chars(&r3),
            bounty.submission_msg, 0, None, None, Some(snap.turn_counter),
            Some(ActionKind::PoolDestroyed), None, now));
    }

    // 4. Record the bounty as rejected through the objection.
    let mut updated = bounty.copy();
    updated.status = owned_str("rejected");
    updated.last_rejection_reason = Some(build_text2("objection sustained (", dispute_id, ")"));
    updated.resolved_at = Some(owned_str(now));
    bounties.bounties.upsert(updated.copy());
    ClawbackOutcome { clawback, rows, updated: Some(updated) }
}

/// The clawback hook for a sustained objection against message
/// `target_msg`: the approved bounty whose submission that message is, if
/// there is one, and its clawback; with none, nothing changes and the
/// clawback is 0.
pub fn bounty_clawback_for_message(
    snap: &mut BalancesSnapshot,
    bounties: &mut OpenBountiesSnapshot,
    target_msg: u64,
    challenger_seat: &str,
    dispute_id: &str,
    now: &str,
) -> (r: (Option<BountyRow>, ClawbackOutcome))
    requires
        old(snap).next_txn_id + 3 <= u64::MAX,
    ensures
        match r.0 {
            Some(b) => {
                &&& is_approved_for(b, target_msg)
                &&& old(bounties).bounties@.contains(b)
                &&& clawback_effect(*old(snap), *final(snap), *old(bounties), *final(bounties), b, challenger_seat@,
                    dispute_id@, now@, r.1)
            },
            None => {
                &&& forall|i: int|
                    0 <= i < old(bounties).bounties@.len() ==> !is_approved_for(#[trigger] old(bounties).bounties@[i], target_msg)
                &&& r.1.clawback == 0 && r.1.rows@.len() == 0 && r.1.updated is None
                &&& *final(snap) == *old(snap)
                &&& *final(bounties) == *old(bounties)
            },
        },
{
    match is_approved_bounty_submission(&bounties.bounties, target_msg) {
        Some(b) => {
            let out = emit_bounty_clawback(snap, bounties, &b, challenger_seat, dispute_id, now);
            (Some(b), out)
        },
        None => (None, ClawbackOutcome { clawback: 0, rows: Vec::new(), updated: None }),
    }
}

// ---------------------------------------------------------------------------
// Bounty expiry
// ---------------------------------------------------------------------------

/// Open or claimed, with its deadline reached at `turn`.
pub open spec fn is_overdue(b: BountyRow, turn: u64) -> bool {
    (b.status@ == "open"@ || b.status@ == "claimed"@) && b.deadline_turn <= turn
}

/// A claimed overdue bounty with a stake: the stake is destroyed.
pub open spec fn burns_stake(b: BountyRow, turn: u64) -> bool {
    is_overdue(b, turn) && b.status@ == "claimed"@ && b.claim_stake > 0
}

/// The overdue bounties whose stake burns, in table order.
pub open spec fn burned(s: Seq<BountyRow>, turn: u64) -> Seq<BountyRow>
    decreases s.len(),
{
    if s.len() == 0 {
        Seq::empty()
    } else if burns_stake(s.last(), turn) {
        burned(s.drop_last(), turn).push(s.last())
    } else {
        burned(s.drop_last(), turn)
    }
}

/// Number of overdue bounties.
pub open spec fn overdue_count(s: Seq<BountyRow>, turn: u64) -> nat
    decreases s.len(),
{
    if s.len() == 0 {
        0
    } else {
        overdue_count(s.drop_last(), turn) + (if is_overdue(s.last(), turn) { 1nat } else { 0 })
    }
}

pub open spec fn claimant_text(b: BountyRow) -> Seq<char> {
    match b.claimant {
        Some(c) => c@,
        None => "?"@,
    }
}

pub open spec fn expire_reason(b: BountyRow, turn: u64) -> Seq<char> {
    "bounty "@ + b.id@ + " expired @turn "@ + dec(turn as nat) + " — claimant "@ + claimant_text(b)
        + " stake destroyed"@
}

/// `after` is `before` marked expired now.
pub open spec fn expired_as(before: BountyRow, after: BountyRow, now: Seq<char>) -> bool {
    same_bounty_terms(before, after) && after.status@ == "expired"@ && after.last_rejection_reason
        == before.last_rejection_reason && opt_text(after.resolved_at) == Some(now)
}

/// The result of an expiry sweep.
pub struct ExpiryOutcome {
    /// Ledger rows (one `bounty_expire` per burned stake), in table order.
    pub rows: Vec<LedgerRow>,
    /// The expired bounties' new rows, in table order.
    pub expired: Vec<BountyRow>,
}

/// Bounty expiry sweep (pure part): at the snapshot's turn, every open or
/// claimed bounty whose deadline has come is marked expired (resolved now);
/// a claimed one with a positive stake also gets a `bounty_expire` audit row
/// against `system:pool` destroying the stake. Seats are untouched; only the
/// transaction counter advances, once per audit row.
pub fn expire_overdue_bounties(
    snap: &mut BalancesSnapshot,
    bounties: &mut OpenBountiesSnapshot,
    now: &str,
) -> (out: ExpiryOutcome)
    requires
        old(snap).next_txn_id + old(bounties).bounties@.len() <= u64::MAX,
    ensures
        ({
            let t0 = old(bounties).bounties@;
            let turn = old(snap).turn_counter;
            let b = burned(t0, turn);
            &&& final(snap).seats@ == old(snap).seats@
            &&& final(snap).turn_counter == turn
            &&& final(snap).next_txn_id == old(snap).next_txn_id + b.len()
            &&& final(bounties).next_bounty_id == old(bounties).next_bounty_id
            &&& final(bounties).bounties@.len() == t0.len()
            &&& forall|i: int| 0 <= i < t0.len() ==> if is_overdue(t0[i], turn) {
                expired_as(t0[i], #[trigger] final(bounties).bounties@[i], now@)
            } else {
                final(bounties).bounties@[i] == t0[i]
            }
            &&& out.expired@.len() == overdue_count(t0, turn)
            &&& out.rows@.len() == b.len()
            &&& forall|j: int| 0 <= j < b.len() ==> row_is(
                #[trigger] out.rows@[j],
                (old(snap).next_txn_id + j) as u64,
                "bounty_expire"@,
                "system:pool"@,
                -b[j].claim_stake,
                expire_reason(b[j], turn),
                None,
                0,
                None,
                None,
                Some(turn),
                Some(ActionKind::BountyExpire),
                None,
                now@,
            )
        }),
{
    let turn = snap.turn_counter;
    let ghost t0 = bounties.bounties@;
    bounties.bounties.ids_are_distinct();
    let mut rows: Vec<LedgerRow> = Vec::new();
    let mut expired: Vec<BountyRow> = Vec::new();
    let n = bounties.bounties.len();
    let mut i: usize = 0;
    assert(t0.take(0) =~= Seq::<BountyRow>::empty());
    while i < n
        invariant
            i <= n,
            n == t0.len(),
            turn == old(snap).turn_counter,
            snap.seats@ == old(snap).seats@,
            snap.turn_counter == turn,
            bounties.next_bounty_id == old(bounties).next_bounty_id,
            old(snap).next_txn_id + t0.len() <= u64::MAX,
            bounties.bounties@.len() == t0.len(),
            bounty_ids_distinct(t0),
            forall|k: int| 0 <= k < t0.len() ==> (#[trigger] bounties.bounties@[k]).id@ == t0[k].id@,
            forall|k: int| 0 <= k < i ==> if is_overdue(t0[k], turn) {
                expired_as(t0[k], #[trigger] bounties.bounties@[k], now@)
            } else {
                bounties.bounties@[k] == t0[k]
            },
            forall|k: int| i <= k < t0.len() ==> #[trigger] bounties.bounties@[k] == t0[k],
            expired@.len() == overdue_count(t0.take(i as int), turn),
            rows@.len() == burned(t0.take(i as int), turn).len(),
            burned(t0.take(i as int), turn).len() <= i,
            snap.next_txn_id == old(snap).next_txn_id + rows@.len(),
            forall|j: int| 0 <= j < rows@.len() ==> row_is(
                #[trigger] rows@[j],
                (old(snap).next_txn_id + j) as u64,
                "bounty_expire"@,
                "system:pool"@,
                -burned(t0, turn)[j].claim_stake,
                expire_reason(burned(t0, turn)[j], turn),
                None,
                0,
                None,
                None,
                Some(turn),
                Some(ActionKind::BountyExpire),
                None,
                now@,
            ),
        decreases n - i,
    {
        proof {
            assert(t0.take(i + 1).drop_last() =~= t0.take(i as int));
            lemma_burned_prefix(t0, i as int + 1, turn);
            lemma_burned_prefix(t0, i as int, turn);
        }
        let b = bounties.bounties.entry_at(i).copy();
        assert(b == t0[i as int]);
        let overdue = (crate::text::str_eq(b.status.as_str(), "open") || crate::text::str_eq(
            b.status.as_str(),
            "claimed",
        )) && b.deadline_turn <= turn;
        if overdue {
            if crate::text::str_eq(b.status.as_str(), "claimed") && b.claim_stake > 0 {
                let tid = snap.next_txn_id;
                snap.next_txn_id = snap.next_txn_id + 1;
                let mut r: Vec<char> = Vec::new();
                push_str(&mut r, "bounty ");
                push_str(&mut r, b.id.as_str());
                push_str(&mut r, " expired @turn ");
                let d = u64_dec(turn);
                push_chars(&mut r, &d);
                push_str(&mut r, " — claimant ");
                match &b.claimant {
                    Some(c) => push_str(&mut r, c.as_str()),
                    None => push_str(&mut r, "?"),
                }
                push_str(&mut r, " stake destroyed");
                assert(r@ =~= expire_reason(b, turn));
                rows.push(make_row(tid, "bounty_expire", "system:pool", -b.claim_stake,
                    string_from_chars(&r), None, 0, None, None, Some(turn),
                    Some(ActionKind::BountyExpire), None, now));
            }
            let mut updated = b.copy();
            updated.status = owned_str("expired");
            updated.resolved_at = Some(owned_str(now));
            let ghost before = bounties.bounties@;
            bounties.bounties.upsert(updated.copy());
            proof {
                lemma_bounty_index_unique(before, b.id@, i as int);
                assert(bounties.bounties@ == before.update(i as int, updated));
            }
            expired.push(updated);
        }
        i = i + 1;
    }
    assert(t0.take(n as int) =~= t0);
    ExpiryOutcome { rows, expired }
}

proof fn lemma_burned_prefix(s: Seq<BountyRow>, n: int, turn: u64)
    requires
        0 <= n <= s.len(),
    ensures
        burned(s.take(n), turn).len() <= burned(s, turn).len(),
        burned(s.take(n), turn).len() <= n,
        forall|j: int| 0 <= j < burned(s.take(n), turn).len() ==> burned(s.take(n), turn)[j]
            == burned(s, turn)[j],
    decreases s.len(),
{
    if n < s.len() {
        assert(s.drop_last().take(n) =~= s.take(n));
        lemma_burned_prefix(s.drop_last(), n, turn);
    } else {
        assert(s.take(n) =~= s);
        lemma_burned_len(s, turn);
    }
}

proof fn lemma_burned_len(s: Seq<BountyRow>, turn: u64)
    ensures
        burned(s, turn).len() <= s.len(),
    decreases s.len(),
{
    if s.len() > 0 {
        lemma_burned_len(s.drop_last(), turn);
    }
}

// ---------------------------------------------------------------------------
// Identifier allocation
// ---------------------------------------------------------------------------

/// `prefix` followed by `n` in lowercase hex, zero-padded to 6 digits.
pub open spec fn hex_id(prefix: Seq<char>, n: u64) -> Seq<char> {
    prefix + zero_pad(base_digits(n as nat, 16), 6)
}

fn format_hex_id(prefix: &str, n: u64) -> (s: String)
    ensures
        s@ == hex_id(prefix@, n),
{
    let mut v: Vec<char> = Vec::new();
    push_str(&mut v, prefix);
    let h = u64_digits(n, 16);
    let p = pad_zeros(&h, 6);
    push_chars(&mut v, &p);
    string_from_chars(&v)
}

/// Allocate the next escrow id `esc_{:06x}` from the snapshot's counter,
/// which then advances (wrapping).
pub fn next_escrow_id(snap: &mut BalancesSnapshot) -> (id: String)
    ensures
        id@ == hex_id("esc_"@, old(snap).next_escrow_id),
        final(snap).next_escrow_id == old(snap).next_escrow_id.wrapping_add(1),
        final(snap).seats@ == old(snap).seats@,
        final(snap).turn_counter == old(snap).turn_counter,
        final(snap).next_txn_id == old(snap).next_txn_id,
        final(snap).next_bounty_id == old(snap).next_bounty_id,
{
    let id = snap.next_escrow_id;
    snap.next_escrow_id = snap.next_escrow_id.wrapping_add(1);
    format_hex_id("esc_", id)
}

// ---------------------------------------------------------------------------
// Open-dispute indexes (seat -> dispute ids)
// ---------------------------------------------------------------------------

pub type IndexSeq = Seq<(Seq<char>, Seq<Seq<char>>)>;

pub open spec fn idx_index(s: IndexSeq, k: Seq<char>) -> int
    decreases s.len(),
{
    if s.len() == 0 {
        -1
    } else if s.last().0 == k {
        s.len() - 1
    } else {
        idx_index(s.drop_last(), k)
    }
}

/// `l` without `d`.
pub open spec fn without(l: Seq<Seq<char>>, d: Seq<char>) -> Seq<Seq<char>>
    decreases l.len(),
{
    if l.len() == 0 {
        Seq::empty()
    } else if l.last() == d {
        without(l.drop_last(), d)
    } else {
        without(l.drop_last(), d).push(l.last())
    }
}

/// Append `d` under key `k` (creating the key).
pub open spec fn idx_add(s: IndexSeq, k: Seq<char>, d: Seq<char>) -> IndexSeq {
    let i = idx_index(s, k);
    if i >= 0 {
        s.update(i, (k, s[i].1.push(d)))
    } else {
        s.push((k, seq![d]))
    }
}

/// Remove `d` from key `k`, dropping the key when its list empties.
pub open spec fn idx_remove(s: IndexSeq, k: Seq<char>, d: Seq<char>) -> IndexSeq {
    let i = idx_index(s, k);
    if i >= 0 {
        let l = without(s[i].1, d);
        if l.len() == 0 {
            s.remove(i)
        } else {
            s.update(i, (k, l))
        }
    } else {
        s
    }
}

/// Keys distinct and no empty list.
pub open spec fn index_wf(s: IndexSeq) -> bool {
    &&& forall|i: int, j: int| 0 <= i < j < s.len() ==> s[i].0 != s[j].0
    &&& forall|i: int| 0 <= i < s.len() ==> (#[trigger] s[i]).1.len() > 0
}

proof fn lemma_idx_index(s: IndexSeq, k: Seq<char>)
    ensures
        -1 <= idx_index(s, k) < s.len(),
        idx_index(s, k) >= 0 ==> s[idx_index(s, k)].0 == k,
        idx_index(s, k) == -1 ==> forall|j: int| 0 <= j < s.len() ==> s[j].0 != k,
    decreases s.len(),
{
    if s.len() > 0 && s.last().0 != k {
        lemma_idx_index(s.drop_last(), k);
        assert forall|j: int| 0 <= j < s.len() && idx_index(s, k) == -1 implies s[j].0 != k by {
            if j < s.len() - 1 {
                assert(s[j] == s.drop_last()[j]);
            }
        }
    }
}

proof fn lemma_idx_index_unique(s: IndexSeq, k: Seq<char>, j: int)
    requires
        index_wf(s),
        0 <= j < s.len(),
        s[j].0 == k,
    ensures
        idx_index(s, k) == j,
{
    lemma_idx_index(s, k);
}

proof fn lemma_without_absent(l: Seq<Seq<char>>, d: Seq<char>)
    requires
        !l.contains(d),
    ensures
        without(l, d) == l,
    decreases l.len(),
{
    if l.len() > 0 {
        assert(!l.drop_last().contains(d)) by {
            if l.drop_last().contains(d) {
                let j = choose|j: int| 0 <= j < l.drop_last().len() && l.drop_last()[j] == d;
                assert(l[j] == d);
            }
        }
        lemma_without_absent(l.drop_last(), d);
        assert(l.last() != d) by {
            assert(l[l.len() - 1] == l.last());
        }
        assert(l.drop_last().push(l.last()) =~= l);
    }
}

/// Adding a dispute id under a key and then removing it restores the index
/// exactly, when the id was not already listed under that key.
pub proof fn law_index_add_remove(s: IndexSeq, k: Seq<char>, d: Seq<char>)
    requires
        index_wf(s),
        idx_index(s, k) >= 0 ==> !s[idx_index(s, k)].1.contains(d),
    ensures
        idx_remove(idx_add(s, k, d), k, d) == s,
{
    lemma_idx_index(s, k);
    let i = idx_index(s, k);
    let t = idx_add(s, k, d);
    if i >= 0 {
        lemma_idx_index_unique(t, k, i);
        let l = s[i].1;
        lemma_without_absent(l, d);
        assert(l.push(d).drop_last() =~= l);
        assert(l.push(d).last() == d);
        assert(without(l.push(d), d) == without(l, d));
        assert(l.len() > 0);
        assert(idx_remove(t, k, d) =~= s);
    } else {
        assert(index_wf(t));
        lemma_idx_index_unique(t, k, s.len() as int);
        assert(without(seq![d], d) =~= Seq::<Seq<char>>::empty()) by {
            let one: Seq<Seq<char>> = seq![d];
            assert(one.drop_last() =~= Seq::<Seq<char>>::empty());
            assert(one.last() == d);
            assert(without(one.drop_last(), d) =~= Seq::<Seq<char>>::empty());
        }
        assert(t.remove(s.len() as int) =~= s);
    }
}

/// Dispute ids listed per seat label.
pub struct DisputeIndex {
    entries: Vec<(String, Vec<String>)>,
}

impl View for DisputeIndex {
    type V = IndexSeq;

    closed spec fn view(&self) -> IndexSeq {
        self.entries@.map_values(
            |e: (String, Vec<String>)| (e.0@, e.1@.map_values(|x: String| x@)),
        )
    }
}

impl DisputeIndex {
    #[verifier::type_invariant]
    closed spec fn wf(&self) -> bool {
        index_wf(self@)
    }

    pub fn new() -> (d: DisputeIndex)
        ensures
            d@.len() == 0,
    {
        let d = DisputeIndex { entries: Vec::new() };
        assert(d@ =~= Seq::<(Seq<char>, Seq<Seq<char>>)>::empty());
        d
    }

    pub fn len(&self) -> (n: usize)
        ensures
            n == self@.len(),
    {
        self.entries.len()
    }

    pub fn is_wf(&self)
        ensures
            index_wf(self@),
    {
        proof {
            use_type_invariant(self);
        }
    }

    fn position(&self, k: &str) -> (r: Option<usize>)
        ensures
            match r {
                Some(i) => i == idx_index(self@, k@) && i < self@.len(),
                None => idx_index(self@, k@) == -1,
            },
    {
        proof {
            use_type_invariant(self);
        }
        let mut i: usize = 0;
        while i < self.entries.len()
            invariant
                i <= self.entries.len(),
                self@.len() == self.entries.len(),
                index_wf(self@),
                forall|j: int| 0 <= j < i ==> self@[j].0 != k@,
            decreases self.entries.len() - i,
        {
            if crate::text::str_eq(self.entries[i].0.as_str(), k) {
                proof {
                    lemma_idx_index_unique(self@, k@, i as int);
                }
                return Some(i);
            }
            i = i + 1;
        }
        proof {
            lemma_idx_index(self@, k@);
            if idx_index(self@, k@) >= 0 {
                assert(self@[idx_index(self@, k@)].0 == k@);
            }
        }
        None
    }

    /// The ids listed under `k` (empty when absent).
    pub fn ids_for(&self, k: &str) -> (v: Vec<String>)
        ensures
            idx_index(self@, k@) >= 0 ==> v@.map_values(|x: String| x@) == self@[idx_index(self@, k@)].1,
            idx_index(self@, k@) == -1 ==> v@.len() == 0,
    {
        match self.position(k) {
            Some(i) => {
                let l = &self.entries[i].1;
                let mut v: Vec<String> = Vec::new();
                let mut j: usize = 0;
                while j < l.len()
                    invariant
                        j <= l.len(),
                        v@.map_values(|x: String| x@) == l@.take(j as int).map_values(|x: String| x@),
                    decreases l.len() - j,
                {
                    let ghost prev = v@;
                    let c = l[j].clone();
                    assert(c@ == l@[j as int]@);
                    v.push(c);
                    j = j + 1;
                    assert(l@.take(j as int).map_values(|x: String| x@) =~= l@.take(j - 1).map_values(|x: String| x@).push(l@[j - 1]@));
                    assert(v@.map_values(|x: String| x@) =~= prev.map_values(|x: String| x@).push(c@));
                }
                assert(l@.take(l.len() as int) =~= l@);
                v
            },
            None => Vec::new(),
        }
    }

    /// Append `d` under key `k`.
    pub fn add(&mut self, k: &str, d: &str)
        ensures
            final(self)@ == idx_add(old(self)@, k@, d@),
    {
        proof {
            use_type_invariant(&*self);
            lemma_idx_index(self@, k@);
        }
        let ghost before = self@;
        let pos = self.position(k);
        let mut entries: Vec<(String, Vec<String>)> = Vec::new();
        std::mem::swap(&mut entries, &mut self.entries);
        match pos {
            Some(i) => {
                let (key, mut l) = entries.remove(i);
                let ghost l0 = l@;
                l.push(owned_str(d));
                entries.insert(i, (key, l));
            },
            None => {
                let mut l: Vec<String> = Vec::new();
                l.push(owned_str(d));
                entries.push((owned_str(k), l));
            },
        }
        proof {
            let v = entries@.map_values(
                |e: (String, Vec<String>)| (e.0@, e.1@.map_values(|x: String| x@)),
            );
            if pos.is_some() {
                let i = pos.unwrap() as int;
                assert(v[i].1 =~= before[i].1.push(d@));
            } else {
                assert(v[before.len() as int].1 =~= seq![d@]);
            }
            assert(v =~= idx_add(before, k@, d@));
            assert(index_wf(v));
        }
        self.entries = entries;
    }

    /// Remove `d` from key `k`, dropping the key when nothing remains.
    pub fn remove(&mut self, k: &str, d: &str)
        ensures
            final(self)@ == idx_remove(old(self)@, k@, d@),
    {
        proof {
            use_type_invariant(&*self);
            lemma_idx_index(self@, k@);
        }
        let ghost before = self@;
        let pos = self.position(k);
        match pos {
            None => {},
            Some(i) => {
                let mut entries: Vec<(String, Vec<String>)> = Vec::new();
                std::mem::swap(&mut entries, &mut self.entries);
                let (key, l) = entries.remove(i);
                let mut kept: Vec<String> = Vec::new();
                let mut j: usize = 0;
                assert(l@.map_values(|x: String| x@).take(0) =~= Seq::<Seq<char>>::empty());
                while j < l.len()
                    invariant
                        j <= l.len(),
                        kept@.map_values(|x: String| x@) == without(l@.map_values(|x: String| x@).take(j as int), d@),
                    decreases l.len() - j,
                {
                    proof {
                        let m = l@.map_values(|x: String| x@);
                        assert(m.take(j + 1).drop_last() =~= m.take(j as int));
                    }
                    if !crate::text::str_eq(l[j].as_str(), d) {
                        let ghost prev = kept@;
                        kept.push(l[j].clone());
                        proof {
                            let m = l@.map_values(|x: String| x@);
                            assert(kept@.map_values(|x: String| x@) =~= prev.map_values(|x: String| x@).push(m[j as int]));
                        }
                    }
                    j = j + 1;
                }
                assert(l@.map_values(|x: String| x@).take(l.len() as int) =~= l@.map_values(|x: String| x@));
                if kept.len() > 0 {
                    entries.insert(i, (key, kept));
                }
                proof {
                    let v = entries@.map_values(
                        |e: (String, Vec<String>)| (e.0@, e.1@.map_values(|x: String| x@)),
                    );
                    assert(v =~= idx_remove(before, k@, d@));
                    assert(index_wf(v));
                }
                self.entries = entries;
            },
        }
    }
}

/// Open disputes by target and by challenger, and the dispute id counter.
pub struct OpenDisputesSnapshot {
    pub open_by_target: DisputeIndex,
    pub open_by_challenger: DisputeIndex,
    pub next_dispute_id: u64,
}

impl OpenDisputesSnapshot {
    pub fn new() -> (s: OpenDisputesSnapshot)
        ensures
            s.open_by_target@.len() == 0,
            s.open_by_challenger@.len() == 0,
            s.next_dispute_id == 0,
    {
        OpenDisputesSnapshot {
            open_by_target: DisputeIndex::new(),
            open_by_challenger: DisputeIndex::new(),
            next_dispute_id: 0,
        }
    }
}

/// Allocate the next dispute id `disp_{:06x}`; the counter advances (wrapping).
pub fn next_dispute_id(snap: &mut OpenDisputesSnapshot) -> (id: String)
    ensures
        id@ == hex_id("disp_"@, old(snap).next_dispute_id),
        final(snap).next_dispute_id == old(snap).next_dispute_id.wrapping_add(1),
        final(snap).open_by_target@ == old(snap).open_by_target@,
        final(snap).open_by_challenger@ == old(snap).open_by_challenger@,
{
    let id = snap.next_dispute_id;
    snap.next_dispute_id = snap.next_dispute_id.wrapping_add(1);
    format_hex_id("disp_", id)
}

/// Index an open dispute under its target and its challenger.
pub fn snapshot_add_open(snap: &mut OpenDisputesSnapshot, dispute_id: &str, challenger: &str, target: &str)
    ensures
        final(snap).open_by_target@ == idx_add(old(snap).open_by_target@, target@, dispute_id@),
        final(snap).open_by_challenger@ == idx_add(old(snap).open_by_challenger@, challenger@, dispute_id@),
        final(snap).next_dispute_id == old(snap).next_dispute_id,
{
    snap.open_by_target.add(target, dispute_id);
    snap.open_by_challenger.add(challenger, dispute_id);
}

/// Drop a resolved dispute from both indexes (keys left empty disappear).
pub fn snapshot_remove_open(snap: &mut OpenDisputesSnapshot, dispute_id: &str, challenger: &str, target: &str)
    ensures
        final(snap).open_by_target@ == idx_remove(old(snap).open_by_target@, target@, dispute_id@),
        final(snap).open_by_challenger@ == idx_remove(old(snap).open_by_challenger@, challenger@, dispute_id@),
        final(snap).next_dispute_id == old(snap).next_dispute_id,
{
    snap.open_by_target.remove(target, dispute_id);
    snap.open_by_challenger.remove(challenger, dispute_id);
}

} // verus!
