//! What holds of the queue over every sequence of operations.
use crate::participant::Record;
use crate::policy::{lemma_select_eligible, select};
use crate::schema::{lemma_index_of, QueueState};
use crate::transactions::{applied, executed, outcome, step, Error, Operation};
use vstd::prelude::*;

verus! {

/// Whether `later` can follow from `earlier` for one participant: the key,
/// the arrival time and the criteria are the same, a flag that was set is
/// still set, and the history has not become shorter.
pub open spec fn follows(earlier: Record, later: Record) -> bool {
    &&& later.key == earlier.key
    &&& later.timestamp == earlier.timestamp
    &&& later.params == earlier.params
    &&& earlier.have_bought ==> later.have_bought
    &&& earlier.removed ==> later.removed
    &&& earlier.history_len <= later.history_len
}

/// What an execution has done is a step of the queue.
pub proof fn lemma_executed_is_step(
    pre: QueueState,
    op: Operation,
    transaction: Seq<u8>,
    post: QueueState,
    result: Result<(), Error>,
)
    requires
        executed(pre, op, transaction, post, result),
    ensures
        step(pre, op, transaction, post),
{
    if result is Ok {
        let digest = post.record(op.key())->0.history_hash;
        assert(post == applied(pre, op, transaction, digest));
    }
}

/// An operation leaves a well-formed state well formed: no key occurs twice
/// and each record counts the entries of its history.
pub proof fn lemma_step_wf(pre: QueueState, op: Operation, transaction: Seq<u8>, post: QueueState)
    requires
        pre.wf(),
        step(pre, op, transaction, post),
    ensures
        post.wf(),
{
    if outcome(pre, op) is Ok {
        let digest = choose|digest: Seq<u8>| post == #[trigger] applied(pre, op, transaction, digest);
        match op {
            Operation::Add { key, .. } => {
                assert forall|i: int, j: int| 0 <= i < j < post.records.len() implies (
                #[trigger] post.records[i]).key != (#[trigger] post.records[j]).key by {
                    if j < pre.records.len() {
                        assert(pre.records[i].key != pre.records[j].key);
                    } else {
                        assert(pre.records[i].key != key);
                    }
                }
                assert forall|i: int| 0 <= i < post.records.len() implies (
                #[trigger] post.records[i]).history_len == post.histories[i].len() by {
                    if i < pre.records.len() {
                        assert(pre.records[i].history_len == pre.histories[i].len());
                    }
                }
                assert forall|i: int| 0 <= i < post.histories.len() implies (
                #[trigger] post.histories[i]).len() >= 1 by {
                    if i < pre.records.len() {
                        assert(pre.histories[i].len() >= 1);
                    }
                }
            },
            _ => {
                let n = pre.index_of(op.key());
                assert(pre.has(op.key()));
                assert(0 <= n < pre.records.len() && pre.records[n].key == op.key());
                assert forall|i: int, j: int| 0 <= i < j < post.records.len() implies (
                #[trigger] post.records[i]).key != (#[trigger] post.records[j]).key by {
                    assert(pre.records[i].key != pre.records[j].key);
                }
                assert forall|i: int| 0 <= i < post.records.len() implies (
                #[trigger] post.records[i]).history_len == post.histories[i].len() by {
                    assert(pre.records[i].history_len == pre.histories[i].len());
                }
                assert forall|i: int| 0 <= i < post.histories.len() implies (
                #[trigger] post.histories[i]).len() >= 1 by {
                    assert(pre.histories[i].len() >= 1);
                }
            },
        }
    }
}

/// An operation keeps every record: afterwards the participant is still in
/// the queue, at the same position, with a record that follows from the one
/// before and a history that starts with the one before.
pub proof fn lemma_step_keeps(
    pre: QueueState,
    op: Operation,
    transaction: Seq<u8>,
    post: QueueState,
    key: Seq<u8>,
)
    requires
        pre.wf(),
        step(pre, op, transaction, post),
        pre.has(key),
    ensures
        post.has(key),
        post.index_of(key) == pre.index_of(key),
        follows(pre.record(key)->0, post.record(key)->0),
        pre.history(key).is_prefix_of(post.history(key)),
{
    lemma_step_wf(pre, op, transaction, post);
    let i = pre.index_of(key);
    assert(0 <= i < pre.records.len() && pre.records[i].key == key);
    if outcome(pre, op) is Ok {
        let digest = choose|digest: Seq<u8>| post == #[trigger] applied(pre, op, transaction, digest);
        match op {
            Operation::Add { .. } => {
                assert(post.records[i] == pre.records[i]);
                assert(post.histories[i] == pre.histories[i]);
            },
            _ => {
                let n = pre.index_of(op.key());
                assert(pre.has(op.key()));
                assert(0 <= n < pre.records.len() && pre.records[n].key == op.key());
                assert(post.records[i].key == key);
                if i == n {
                    assert(post.histories[i] == pre.histories[i].push(transaction));
                } else {
                    assert(post.histories[i] == pre.histories[i]);
                }
            },
        }
        lemma_index_of(post, key, i);
    }
}

/// Whether `states` is what a sequence of operations passes through:
/// `states[0]` is well formed, and `ops[i]`, executed under the identifier
/// `ids[i]`, leads from `states[i]` to `states[i + 1]`.
pub open spec fn is_run(states: Seq<QueueState>, ops: Seq<Operation>, ids: Seq<Seq<u8>>) -> bool {
    &&& states.len() == ops.len() + 1
    &&& ids.len() == ops.len()
    &&& states[0].wf()
    &&& forall|i: int|
        #![trigger ops[i]]
        0 <= i < ops.len() ==> step(states[i], ops[i], ids[i], states[i + 1])
}

/// History consistency: every state of a run is well formed, so that in each
/// of them every record counts exactly the entries of its history, and no
/// key has two records.
pub proof fn law_run_wf(states: Seq<QueueState>, ops: Seq<Operation>, ids: Seq<Seq<u8>>, j: int)
    requires
        is_run(states, ops, ids),
        0 <= j < states.len(),
    ensures
        states[j].wf(),
    decreases j,
{
    if j > 0 {
        law_run_wf(states, ops, ids, j - 1);
        let op = ops[j - 1];
        lemma_step_wf(states[j - 1], op, ids[j - 1], states[j]);
    }
}

/// Monotonicity: a participant that is in the queue stays in it, and no
/// sequence of operations resets `have_bought` or `removed`, changes the
/// arrival time, or takes an entry out of the history.
pub proof fn law_flags_never_reset(
    states: Seq<QueueState>,
    ops: Seq<Operation>,
    ids: Seq<Seq<u8>>,
    i: int,
    j: int,
    key: Seq<u8>,
)
    requires
        is_run(states, ops, ids),
        0 <= i <= j < states.len(),
        states[i].has(key),
    ensures
        states[j].has(key),
        follows(states[i].record(key)->0, states[j].record(key)->0),
        states[i].history(key).is_prefix_of(states[j].history(key)),
    decreases j - i,
{
    if i < j {
        law_flags_never_reset(states, ops, ids, i, j - 1, key);
        law_run_wf(states, ops, ids, j - 1);
        let op = ops[j - 1];
        lemma_step_keeps(states[j - 1], op, ids[j - 1], states[j], key);
    }
}

/// Uniqueness: once an `Add` for a key was accepted, every later `Add` for
/// that key is rejected with `ParticipantAlreadyExists`.
pub proof fn law_add_accepted_once(
    states: Seq<QueueState>,
    ops: Seq<Operation>,
    ids: Seq<Seq<u8>>,
    i: int,
    j: int,
)
    requires
        is_run(states, ops, ids),
        0 <= i < j < ops.len(),
        ops[i] is Add,
        ops[j] is Add,
        ops[i].key() == ops[j].key(),
        outcome(states[i], ops[i]) is Ok,
    ensures
        outcome(states[j], ops[j]) == Err::<(), Error>(Error::ParticipantAlreadyExists),
{
    let key = ops[i].key();
    let op = ops[i];
    assert(step(states[i], op, ids[i], states[i + 1]));
    let digest = choose|digest: Seq<u8>|
        states[i + 1] == #[trigger] applied(states[i], op, ids[i], digest);
    let last = states[i].records.len() as int;
    assert(states[i + 1].records[last].key == key);
    law_flags_never_reset(states, ops, ids, i + 1, j, key);
}

/// Making one record ineligible has the effect on the selection that taking
/// the record away has.
pub proof fn lemma_select_passes_over(records: Seq<Record>, i: int, changed: Record)
    requires
        0 <= i < records.len(),
        !changed.eligible(),
    ensures
        select(records.update(i, changed)) == select(records.remove(i)),
    decreases records.len(),
{
    let updated = records.update(i, changed);
    let without = records.remove(i);
    if i == records.len() - 1 {
        assert(updated.drop_last() =~= records.drop_last());
        assert(without =~= records.drop_last());
    } else {
        lemma_select_passes_over(records.drop_last(), i, changed);
        assert(updated.drop_last() =~= records.drop_last().update(i, changed));
        assert(without.drop_last() =~= records.drop_last().remove(i));
        assert(updated.last() == without.last());
    }
}

/// Single winner: after an accepted `Buy` the buyer is no longer the one
/// selected; the selection is what it would be if the buyer were not in the
/// queue, so that the next eligible participant is first in line.
pub proof fn law_next_in_line(pre: QueueState, key: Seq<u8>, transaction: Seq<u8>, post: QueueState)
    requires
        pre.wf(),
        outcome(pre, Operation::Buy { key }) is Ok,
        step(pre, Operation::Buy { key }, transaction, post),
    ensures
        post.first() == select(pre.records.remove(pre.index_of(key))),
        post.first() is Some ==> post.first()->0.key != key,
{
    let op = Operation::Buy { key };
    let digest = choose|digest: Seq<u8>| post == #[trigger] applied(pre, op, transaction, digest);
    let i = pre.index_of(key);
    assert(pre.has(key));
    assert(0 <= i < pre.records.len() && pre.records[i].key == key);
    let changed = pre.records[i].bought(digest);
    lemma_select_passes_over(pre.records, i, changed);
    let others = pre.records.remove(i);
    lemma_select_eligible(others);
    if select(others) is Some {
        let r = select(others)->0;
        let n = choose|n: int| 0 <= n < others.len() && others[n] == r;
        if n < i {
            assert(pre.records[n].key != pre.records[i].key);
        } else {
            assert(others[n] == pre.records[n + 1]);
            assert(pre.records[i].key != pre.records[n + 1].key);
        }
    }
}

/// Single winner, over a run: once a `Buy` for a key was accepted, that
/// participant is never again the one selected, and every later `Buy` for
/// the key is rejected with `ParticipantAlreadyBought`.
pub proof fn law_single_winner(
    states: Seq<QueueState>,
    ops: Seq<Operation>,
    ids: Seq<Seq<u8>>,
    i: int,
    j: int,
    key: Seq<u8>,
)
    requires
        is_run(states, ops, ids),
        0 <= i < j < states.len(),
        ops[i] == (Operation::Buy { key }),
        outcome(states[i], ops[i]) is Ok,
    ensures
        states[j].first() is Some ==> states[j].first()->0.key != key,
        outcome(states[j], Operation::Buy { key }) == Err::<(), Error>(
            Error::ParticipantAlreadyBought,
        ),
{
    let op = ops[i];
    law_run_wf(states, ops, ids, i);
    assert(step(states[i], op, ids[i], states[i + 1]));
    let digest = choose|digest: Seq<u8>|
        states[i + 1] == #[trigger] applied(states[i], op, ids[i], digest);
    let n = states[i].index_of(key);
    assert(states[i].has(key));
    assert(0 <= n < states[i].records.len() && states[i].records[n].key == key);
    lemma_step_keeps(states[i], op, ids[i], states[i + 1], key);
    lemma_step_wf(states[i], op, ids[i], states[i + 1]);
    lemma_index_of(states[i + 1], key, n);
    assert(states[i + 1].record(key)->0.have_bought);
    law_flags_never_reset(states, ops, ids, i + 1, j, key);
    law_run_wf(states, ops, ids, j);
    let bought = states[j].record(key)->0;
    assert(bought.have_bought);
    lemma_select_eligible(states[j].records);
    if states[j].first() is Some && states[j].first()->0.key == key {
        let r = states[j].first()->0;
        let m = choose|m: int| 0 <= m < states[j].records.len() && states[j].records[m] == r;
        lemma_index_of(states[j], key, m);
    }
}

} // verus!
