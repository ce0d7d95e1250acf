use vaak_core::currency::{
    ceil_div, decay_split, EconomySettings, DECAY_COPPER_PCT_PER_TURN_TENTHS, DECAY_FLOOR_COPPER,
    DECAY_SILVER_PCT_PER_TURN_TENTHS, INTEREST_MIN_HELD_COPPER, INTEREST_PER_10_COPPER_HELD,
    SPEAK_EARN_COPPER, SPEAK_ESCROW_TICKS,
};

#[test]
fn t_decay_ceil_div_helper() {
    assert_eq!(ceil_div(0, 1000), 0);
    assert_eq!(ceil_div(1, 1000), 1);   // any positive numer → at least 1
    assert_eq!(ceil_div(999, 1000), 1);
    assert_eq!(ceil_div(1000, 1000), 1);
    assert_eq!(ceil_div(1001, 1000), 2);
}

#[test]
fn t_decay_constants() {
    assert_eq!(DECAY_COPPER_PCT_PER_TURN_TENTHS, 10); // 1.0%
    assert_eq!(DECAY_SILVER_PCT_PER_TURN_TENTHS, 5);  // 0.5%
    assert_eq!(DECAY_FLOOR_COPPER, 100);
}

/// The per-balance decay of one tick under the default settings.
fn decay_loss_for_balance(bal: i64) -> (i64, i64) {
    decay_split(bal, &EconomySettings::default())
}

#[test]
fn t_decay_gold_only_hoarder_loses_nothing() {
    // 10000 = 1g 0s 0c → no decay (per human spec "keeps all of their gold").
    assert_eq!(decay_loss_for_balance(10_000), (0, 0));
    // 30000 = 3g 0s 0c → no decay (evil-arch msg 473 table row).
    assert_eq!(decay_loss_for_balance(30_000), (0, 0));
    // 1_500_000 = 150g 0s 0c → no decay.
    assert_eq!(decay_loss_for_balance(1_500_000), (0, 0));
}

#[test]
fn t_decay_evil_arch_msg_473_table() {
    // Per evil-arch msg 473 corrected table:
    //  10,500 = 1g 5s 0c   → 0c copper + 100c silver = 100c
    //  12,345 = 1g 23s 45c → 1c copper + 100c silver = 101c
    //  9,999  = 0g 99s 99c → 1c copper + 100c silver = 101c
    assert_eq!(decay_loss_for_balance(10_500), (0, 100));
    assert_eq!(decay_loss_for_balance(12_345), (1, 100));
    assert_eq!(decay_loss_for_balance(9_999),  (1, 100));
}

#[test]
fn t_decay_max_per_seat_per_turn_is_101() {
    // Per evil-arch's math: max bucket residual = 99s 99c regardless of
    // gold portion. ceil(99×0.005)=1s, ceil(99×0.01)=1c → 101c total.
    let max_residual_balance = 99 * 100 + 99; // 9999c
    assert_eq!(decay_loss_for_balance(max_residual_balance), (1, 100));
    // Adding any amount of gold doesn't change max decay.
    assert_eq!(decay_loss_for_balance(50_000 + 9999), (1, 100));
}

#[test]
fn t_decay_floor_protects_small_balances() {
    // Below floor → no decay.
    assert_eq!(decay_loss_for_balance(DECAY_FLOOR_COPPER - 1), (0, 0));
    assert_eq!(decay_loss_for_balance(50), (0, 0));
    // Floor itself is NOT decayed (treated as the protection threshold).
    assert_eq!(decay_loss_for_balance(DECAY_FLOOR_COPPER), (0, 0));
}

#[test]
fn t_decay_floor_clamp_caps_drain() {
    // Balance = floor + 1 (101c) has 1g=0, silver=1, copper=1.
    // Raw decay would be ceil(1×0.01)=1c copper + ceil(1×0.005)=1s=100c → 101c.
    // But max_drain = 1c. So decay clamps to 1c (copper-row only; silver-row=0).
    assert_eq!(decay_loss_for_balance(DECAY_FLOOR_COPPER + 1), (1, 0));
}

#[test]
fn t_commit_e_interest_per_10_copper_held_is_zero() {
    assert_eq!(INTEREST_PER_10_COPPER_HELD, 0);
}

#[test]
fn t_commit_e_threshold_escrow_yields_zero_interest_per_tick() {
    // Mirrors the formula at collab.rs:4434-4438 against a single
    // threshold-amount escrow item.
    let amount: i64 = INTEREST_MIN_HELD_COPPER; // 10
    let interest_per_tick = (amount / 10) * INTEREST_PER_10_COPPER_HELD;
    assert_eq!(interest_per_tick, 0);
}

#[test]
fn t_commit_e_stacked_speak_escrows_yield_zero_interest() {
    // Pre-fix, a seat holding 5 concurrent SPEAK escrows (each 10cu)
    // earned 5cu per tick × 20 ticks = +100cu pure profit.
    // Post-fix, the sum is 0 regardless of count.
    let amount: i64 = INTEREST_MIN_HELD_COPPER;
    let stacked: i64 = (0..5)
        .map(|_| (amount / 10) * INTEREST_PER_10_COPPER_HELD)
        .sum();
    assert_eq!(stacked, 0);
}

#[test]
fn t_commit_e_speak_net_pnl_over_20_ticks_is_neutral() {
    // Net P&L of one SPEAK escrow over its full 20-tick window:
    //   = -SPEAK_EARN_COPPER (hold) + 0 (interest accrued) + SPEAK_EARN_COPPER (refund)
    //   = 0
    // Pre-fix this was +20 (the bug); post-fix it is neutral.
    let interest_over_window: i64 =
        (0..SPEAK_ESCROW_TICKS as i64).map(|_| (SPEAK_EARN_COPPER / 10) * INTEREST_PER_10_COPPER_HELD).sum();
    let net_pnl: i64 = -SPEAK_EARN_COPPER + interest_over_window + SPEAK_EARN_COPPER;
    assert_eq!(net_pnl, 0);
}

fn simulate_decay_tick(bal: i64) -> i64 {
    let (copper_loss, silver_loss) = decay_loss_for_balance(bal);
    bal - copper_loss - silver_loss
}

#[test]
fn t_decay_floor_is_inviolable_across_many_ticks() {
    // Simulate 500 decay ticks on a starting balance of 10,000c
    // (1 gold). Floor must hold every tick.
    let mut bal = 10_000;
    for _t in 0..500 {
        bal = simulate_decay_tick(bal);
        assert!(
            bal >= DECAY_FLOOR_COPPER,
            "decay drained below floor: bal={}",
            bal
        );
    }
}

#[test]
fn t_decay_is_monotonically_nonincreasing() {
    // A pure tax mechanism must NEVER increase the seat's balance.
    // Property: bal(t+1) <= bal(t) for all t.
    let mut bal = 50_000;
    for _t in 0..300 {
        let prev = bal;
        bal = simulate_decay_tick(bal);
        assert!(bal <= prev, "decay INCREASED balance: {} -> {}", prev, bal);
    }
}

#[test]
fn t_decay_preserves_gold_does_not_converge_to_floor() {
    // EMPIRICAL FINDING from this test cycle: decay only taxes
    // copper + silver buckets per spec (architect msg 424). A
    // balance composed entirely of gold (e.g. 100,000c = 10g 0s
    // 0c) sees ZERO decay per tick because `copper_to_display`
    // returns d.copper=0, d.silver=0 — no taxable portion.
    //
    // Property under test: gold IS a safe haven from decay
    // (intended, not a bug). Means decay alone CANNOT drain a
    // pure-gold balance to floor. This is the gold-hoarding
    // dynamic tester:0 msg 463 flagged — surfaced empirically
    // here as an acceptance-row not a bug.
    //
    // If a future change extends decay to include gold (e.g.
    // 0.1% per turn on gold tier), this test fails — that's a
    // semantic-change flag, not a regression.
    let mut bal = 100_000; // 10g 0s 0c
    for _t in 0..500 {
        bal = simulate_decay_tick(bal);
    }
    assert_eq!(bal, 100_000, "decay drained pure-gold balance (unexpected — spec says gold preserved)");
}

#[test]
fn t_decay_drains_silver_and_copper_buckets_to_gold_boundary() {
    // Complementary to the gold-preservation property: a balance
    // with copper + silver components decays those components
    // away until only the gold tier (+ floor protection) remains.
    // 10,500c = 10g 5s 0c → eventually decays to 10,000c (10g).
    let mut bal = 10_500; // 10g 5s 0c
    let mut tick = 0u32;
    while bal > 10_000 && tick < 2_000 {
        bal = simulate_decay_tick(bal);
        tick += 1;
    }
    assert!(
        bal <= 10_000,
        "decay failed to drain silver/copper buckets in 2000 ticks; bal={}",
        bal
    );
    // Subsequent ticks must not drain further (gold-tier protected).
    let post_drain = bal;
    for _t in 0..100 {
        bal = simulate_decay_tick(bal);
    }
    assert_eq!(bal, post_drain, "decay drained past gold-tier boundary");
}

#[test]
fn t_decay_zero_at_exact_floor() {
    // At the floor exactly, no further decay fires. Regression
    // guard for off-by-one in the `bal < DECAY_FLOOR_COPPER`
    // gate (would drain the floor to floor-1 silently).
    assert_eq!(decay_loss_for_balance(DECAY_FLOOR_COPPER), (0, 0));
    let bal = DECAY_FLOOR_COPPER;
    let after = simulate_decay_tick(bal);
    assert_eq!(after, bal, "decay drained at-floor balance");
}

#[test]
fn t_economy_defaults_pass_all_validators() {
    let s = EconomySettings::default();
    // 1. interest_per_10_copper_held >= 0
    assert!(s.interest_per_10_copper_held >= 0,
        "default interest_per_10_copper_held ({}) violates >=0",
        s.interest_per_10_copper_held);
    // 2. starting_balance_copper > 0
    assert!(s.starting_balance_copper > 0,
        "default starting_balance_copper ({}) violates >0",
        s.starting_balance_copper);
    // 3. all escrow_ticks_* > 0
    assert!(s.pass_escrow_ticks > 0, "pass_escrow_ticks must be >0");
    assert!(s.speak_escrow_ticks > 0, "speak_escrow_ticks must be >0");
    assert!(s.edit_escrow_ticks > 0, "edit_escrow_ticks must be >0");
    assert!(s.test_escrow_ticks > 0, "test_escrow_ticks must be >0");
    // 4. decay_floor_copper <= starting_balance_copper
    assert!(s.decay_floor_copper <= s.starting_balance_copper,
        "decay_floor_copper ({}) > starting_balance_copper ({}) — fresh seats would start below floor",
        s.decay_floor_copper, s.starting_balance_copper);
    // 5. objection_cost_copper <= starting_balance_copper / 5
    assert!(s.objection_cost_copper <= s.starting_balance_copper / 5,
        "objection_cost_copper ({}) > starting_balance_copper/5 ({}) — fresh seats can't afford an objection",
        s.objection_cost_copper, s.starting_balance_copper / 5);
    // 6. deficit_cap_copper <= 0
    assert!(s.deficit_cap_copper <= 0,
        "deficit_cap_copper ({}) must be <=0 (negative threshold for timeout)",
        s.deficit_cap_copper);
    // 7-10. percent fields in [0, 100]
    assert!(s.bounty_claim_stake_percent <= 100, "bounty_claim_stake_percent must be <=100");
    assert!(s.bounty_abandon_loss_percent <= 100, "bounty_abandon_loss_percent must be <=100");
    assert!(s.bounty_reject_loss_percent <= 100, "bounty_reject_loss_percent must be <=100");
    assert!(s.bounty_objection_clawback_percent <= 100, "bounty_objection_clawback_percent must be <=100");
    assert!(s.clawback_percent <= 100, "clawback_percent must be <=100");
}

#[test]
fn t_economy_defaults_oxford_invariants() {
    // Tester msg 847 extension for commit 6f31cf8 (dev:1) which added
    // 6 Oxford fields + 3 new semantic validators in main.rs:
    //   - oxford_turn_hard_limit_secs >= oxford_turn_soft_limit_secs
    //   - oxford_default_winning_reward_copper >= 0
    //   - oxford_audience_vote_window_secs > 0
    //
    // Mirrors the consolidated validator list (architect msg 701 +
    // evil-arch msg 691 + tester msg 693 + evil-arch msg 845).
    let s = EconomySettings::default();
    assert!(
        s.oxford_turn_hard_limit_secs >= s.oxford_turn_soft_limit_secs,
        "oxford_turn_hard_limit_secs ({}) must be >= oxford_turn_soft_limit_secs ({}) — hard ceiling can't be below soft target",
        s.oxford_turn_hard_limit_secs, s.oxford_turn_soft_limit_secs
    );
    assert!(
        s.oxford_default_winning_reward_copper >= 0,
        "oxford_default_winning_reward_copper ({}) must be >= 0",
        s.oxford_default_winning_reward_copper
    );
    assert!(
        s.oxford_audience_vote_window_secs > 0,
        "oxford_audience_vote_window_secs ({}) must be > 0 — zero window = no vote possible",
        s.oxford_audience_vote_window_secs
    );
    // Additional sanity (not in main.rs validators but worth pinning):
    assert!(
        s.oxford_moderator_vacancy_timeout_secs > 0,
        "moderator vacancy timeout of 0 would auto-kill any debate the moment a moderator left"
    );
    assert!(
        s.oxford_react_rate_limit_per_min > 0,
        "react rate limit of 0 would disable all audience reactions"
    );
}
