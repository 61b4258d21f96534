//! The ordering policy: which participant is first in line.
use crate::crypto::bytes_before;
use crate::participant::{records_of, Participant, Record};
use crate::ranking::{rank_by_params, rank_params, Rank};
use std::cmp::Ordering;
use vstd::prelude::*;

verus! {

/// How `a` stands to `b` in the queue; `Higher` says that `a` is served
/// before `b`. The earlier arrival is served first. Of two records with the
/// same arrival time, the one whose ranking criteria hold the smaller integer
/// is served first; where the criteria do not tell them apart, the one with
/// the smaller key is.
pub open spec fn standing(a: Record, b: Record) -> Rank {
    if a.timestamp < b.timestamp {
        Rank::Higher
    } else if a.timestamp > b.timestamp {
        Rank::Lower
    } else {
        match rank_params(a.params, b.params) {
            Rank::Lower => Rank::Higher,
            Rank::Higher => Rank::Lower,
            Rank::Same => if bytes_before(a.key, b.key) {
                Rank::Higher
            } else if bytes_before(b.key, a.key) {
                Rank::Lower
            } else {
                Rank::Same
            },
        }
    }
}

/// Whether `a` is served before `b`.
pub open spec fn prefers(a: Record, b: Record) -> bool {
    standing(a, b) == Rank::Higher
}

/// The record that is first in line among `records`, if any is eligible.
/// The records are taken in their order; an eligible record takes the place
/// of the best one so far unless that one is served before it.
pub open spec fn select(records: Seq<Record>) -> Option<Record>
    decreases records.len(),
{
    if records.len() == 0 {
        None
    } else {
        let earlier = select(records.drop_last());
        let last = records.last();
        if !last.eligible() {
            earlier
        } else {
            match earlier {
                None => Some(last),
                Some(best) => if prefers(best, last) {
                    Some(best)
                } else {
                    Some(last)
                },
            }
        }
    }
}

/// Whether the eligible records of `records` have arrival times that differ
/// from one record to the other.
pub open spec fn distinct_arrivals(records: Seq<Record>) -> bool {
    forall|i: int, j: int|
        0 <= i < records.len() && 0 <= j < records.len() && (#[trigger] records[i]).eligible() && (
        #[trigger] records[j]).eligible() && records[i] != records[j] ==> records[i].timestamp
            != records[j].timestamp
}

/// The selected record is eligible and is one of the records; none is
/// selected exactly when no record is eligible.
pub proof fn lemma_select_eligible(records: Seq<Record>)
    ensures
        match select(records) {
            Some(r) => r.eligible() && records.contains(r),
            None => forall|i: int| 0 <= i < records.len() ==> !(#[trigger] records[i]).eligible(),
        },
    decreases records.len(),
{
    if records.len() > 0 {
        let front = records.drop_last();
        lemma_select_eligible(front);
        assert(records.last() == records[records.len() - 1]);
        match select(front) {
            Some(best) => {
                let i = choose|i: int| 0 <= i < front.len() && front[i] == best;
                assert(records[i] == best);
            },
            None => {
                assert forall|i: int| 0 <= i < records.len() - 1 implies !(
                #[trigger] records[i]).eligible() by {
                    assert(front[i] == records[i]);
                }
            },
        }
    }
}

/// No eligible record arrived before the selected one.
pub proof fn lemma_select_earliest(records: Seq<Record>)
    ensures
        forall|i: int|
            0 <= i < records.len() && (#[trigger] records[i]).eligible() ==> select(records) is Some
                && select(records)->0.timestamp <= records[i].timestamp,
    decreases records.len(),
{
    if records.len() > 0 {
        let front = records.drop_last();
        lemma_select_earliest(front);
        lemma_select_eligible(front);
        assert forall|i: int| 0 <= i < records.len() && (#[trigger] records[i]).eligible() implies select(
            records,
        ) is Some && select(records)->0.timestamp <= records[i].timestamp by {
            if i < records.len() - 1 {
                assert(front[i] == records[i]);
            }
        }
    }
}

/// An eligible record that arrived strictly before every other eligible
/// record is the one selected, wherever it stands among the records.
pub proof fn law_earliest_is_selected(records: Seq<Record>, r: Record)
    requires
        r.eligible(),
        records.contains(r),
        forall|i: int|
            0 <= i < records.len() && (#[trigger] records[i]).eligible() && records[i] != r
                ==> r.timestamp < records[i].timestamp,
    ensures
        select(records) == Some(r),
{
    lemma_select_eligible(records);
    lemma_select_earliest(records);
    let i = choose|i: int| 0 <= i < records.len() && records[i] == r;
    assert(records[i].eligible());
    let q = select(records)->0;
    let j = choose|j: int| 0 <= j < records.len() && records[j] == q;
    assert(records[j].eligible());
}

/// Where the eligible records have distinct arrival times, the selection
/// does not depend on the order in which the records are enumerated: two
/// enumerations of the same records select the same one, the earliest.
pub proof fn law_selection_ignores_order(first: Seq<Record>, second: Seq<Record>)
    requires
        forall|r: Record| first.contains(r) <==> second.contains(r),
        distinct_arrivals(first),
    ensures
        select(first) == select(second),
        select(first) is Some ==> forall|i: int|
            0 <= i < second.len() && (#[trigger] second[i]).eligible() ==> select(
                first,
            )->0.timestamp <= second[i].timestamp,
{
    lemma_select_eligible(first);
    lemma_select_earliest(first);
    lemma_select_eligible(second);
    match select(first) {
        Some(r) => {
            let k = choose|k: int| 0 <= k < first.len() && first[k] == r;
            assert(second.contains(r));
            assert forall|i: int|
                0 <= i < second.len() && (#[trigger] second[i]).eligible() && second[i]
                    != r implies r.timestamp < second[i].timestamp by {
                assert(second.contains(second[i]));
                assert(first.contains(second[i]));
                let j = choose|j: int| 0 <= j < first.len() && first[j] == second[i];
                assert(first[j].eligible() && first[k].eligible());
            }
            law_earliest_is_selected(second, r);
        },
        None => {
            if select(second) is Some {
                let q = select(second)->0;
                assert(first.contains(q));
                let j = choose|j: int| 0 <= j < first.len() && first[j] == q;
                assert(first[j].eligible());
            }
        },
    }
}

/// The standard ordering that `standing` amounts to: `Greater` where `a` is
/// served before `b`.
pub open spec fn order_of(a: Record, b: Record) -> Ordering {
    match standing(a, b) {
        Rank::Lower => Ordering::Less,
        Rank::Same => Ordering::Equal,
        Rank::Higher => Ordering::Greater,
    }
}

/// How `d1` stands to `d2` in the queue.
pub fn stand(d1: &Participant, d2: &Participant) -> (r: Rank)
    ensures
        r == standing(d1@, d2@),
{
    if d1.timestamp < d2.timestamp {
        return Rank::Higher;
    }
    if d1.timestamp > d2.timestamp {
        return Rank::Lower;
    }
    match rank_by_params(d1.params.as_str(), d2.params.as_str()) {
        Rank::Lower => Rank::Higher,
        Rank::Higher => Rank::Lower,
        Rank::Same => {
            if d1.key.before(&d2.key) {
                Rank::Higher
            } else if d2.key.before(&d1.key) {
                Rank::Lower
            } else {
                Rank::Same
            }
        },
    }
}

/// Orders two participants so that the greatest is the one served first.
pub fn order_decs(d1: &Participant, d2: &Participant) -> (r: Ordering)
    ensures
        r == order_of(d1@, d2@),
{
    match stand(d1, d2) {
        Rank::Lower => Ordering::Less,
        Rank::Same => Ordering::Equal,
        Rank::Higher => Ordering::Greater,
    }
}

/// The position in `participants` of the one that is first in line.
pub fn first_index(participants: &Vec<Participant>) -> (r: Option<usize>)
    ensures
        match r {
            Some(i) => i < participants.len() && select(records_of(participants@)) == Some(
                participants@[i as int]@,
            ),
            None => select(records_of(participants@)) is None,
        },
{
    let ghost records = records_of(participants@);
    let mut best: Option<usize> = None;
    let mut i: usize = 0;
    proof {
        assert(records.take(0) =~= Seq::<Record>::empty());
    }
    while i < participants.len()
        invariant
            i <= participants.len(),
            records == records_of(participants@),
            match best {
                Some(b) => b < i && select(records.take(i as int)) == Some(records[b as int]),
                None => select(records.take(i as int)) is None,
            },
        decreases participants.len() - i,
    {
        let candidate = &participants[i];
        proof {
            let longer = records.take(i as int + 1);
            assert(longer.drop_last() =~= records.take(i as int));
            assert(longer.last() == candidate@);
        }
        if !candidate.have_bought && !candidate.removed {
            best = match best {
                None => Some(i),
                Some(b) => {
                    match stand(&participants[b], candidate) {
                        Rank::Higher => Some(b),
                        _ => Some(i),
                    }
                },
            };
        }
        i += 1;
    }
    proof {
        assert(records.take(i as int) =~= records);
    }
    best
}

} // verus!
