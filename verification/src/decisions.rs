//! The decision-resolution log: each line records that a posed decision was
//! resolved or cancelled. Reading it keeps the last record per decision, so a
//! cancel written after a resolve wins.
use std::collections::HashMap;
use vstd::prelude::*;

verus! {

broadcast use vstd::std_specs::hash::group_hash_axioms;

/// One line of the resolution log.
#[derive(Debug, Clone)]
pub struct DecisionResolution {
    pub decision_id: u64,
    /// "resolve" or "cancel".
    pub kind: String,
    pub option_id: Option<String>,
    pub other_text: Option<String>,
    /// For a cancel: "author_cancel", "stale_archive" or "board_resolved".
    pub reason: Option<String>,
    pub at: String,
    pub by: String,
}

/// The log folded by decision id: each id maps to its last record.
pub open spec fn resolutions_from(rows: Seq<DecisionResolution>) -> Map<u64, DecisionResolution>
    decreases rows.len(),
{
    if rows.len() == 0 {
        Map::empty()
    } else {
        resolutions_from(rows.drop_last()).insert(rows.last().decision_id, rows.last())
    }
}

/// The last record of each decision in `rows`, keyed by decision id.
pub fn latest_resolutions(rows: Vec<DecisionResolution>) -> (m: HashMap<u64, DecisionResolution>)
    ensures
        m@ == resolutions_from(rows@),
{
    let ghost all = rows@;
    let total: usize = rows.len();
    let mut rest = rows;
    let mut m: HashMap<u64, DecisionResolution> = HashMap::new();
    let mut k: usize = 0;
    assert(all.take(0) =~= Seq::<DecisionResolution>::empty());
    assert(all.skip(0) =~= all);
    while rest.len() > 0
        invariant
            rest@.len() + k == all.len(),
            all.len() == total,
            rest@ == all.skip(k as int),
            m@ == resolutions_from(all.take(k as int)),
        decreases rest@.len(),
    {
        let r = rest.remove(0);
        proof {
            assert(r == all[k as int]);
            assert(rest@ =~= all.skip(k + 1));
            assert(all.take(k + 1).drop_last() =~= all.take(k as int));
            assert(all.take(k + 1).last() == all[k as int]);
        }
        let id = r.decision_id;
        m.insert(id, r);
        k = k + 1;
    }
    assert(all.take(all.len() as int) =~= all);
    m
}

/// Last write wins: reading the log gives, for each decision that occurs in
/// it, the last record written for that decision.
pub proof fn law_last_record_wins(rows: Seq<DecisionResolution>, i: int)
    requires
        0 <= i < rows.len(),
        forall|j: int| i < j < rows.len() ==> rows[j].decision_id != rows[i].decision_id,
    ensures
        resolutions_from(rows).contains_key(rows[i].decision_id),
        resolutions_from(rows)[rows[i].decision_id] == rows[i],
    decreases rows.len(),
{
    if i == rows.len() - 1 {
    } else {
        let front = rows.drop_last();
        assert forall|j: int| i < j < front.len() implies front[j].decision_id != front[i].decision_id by {
            assert(front[j] == rows[j]);
        }
        law_last_record_wins(front, i);
        assert(rows.last() == rows[rows.len() - 1]);
    }
}

/// Reading the log gives an entry for exactly the decisions that occur in it.
pub proof fn law_logged_ids_only(rows: Seq<DecisionResolution>, id: u64)
    ensures
        resolutions_from(rows).contains_key(id) <==> exists|j: int|
            0 <= j < rows.len() && #[trigger] rows[j].decision_id == id,
    decreases rows.len(),
{
    if rows.len() > 0 {
        let front = rows.drop_last();
        law_logged_ids_only(front, id);
        if resolutions_from(front).contains_key(id) {
            let j = choose|j: int| 0 <= j < front.len() && #[trigger] front[j].decision_id == id;
            assert(rows[j] == front[j]);
        }
        if exists|j: int| 0 <= j < rows.len() && #[trigger] rows[j].decision_id == id {
            let j = choose|j: int| 0 <= j < rows.len() && #[trigger] rows[j].decision_id == id;
            if j < rows.len() - 1 {
                assert(front[j] == rows[j]);
            }
        }
    }
}

} // verus!
