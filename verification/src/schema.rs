//! The queue: the table of participants and the history of each.
use crate::crypto;
use crate::crypto::PublicKey;
use crate::participant::{records_of, Participant, Record};
use crate::policy::{first_index, select};
use vstd::prelude::*;

verus! {

/// The contents of the queue as plain mathematical values: the records in
/// the order in which they were added, and for each record the identifiers
/// of the transactions that were accepted for its participant.
pub struct QueueState {
    /// The records, one for each participant.
    pub records: Seq<Record>,
    /// The histories; `histories[i]` belongs to `records[i]`.
    pub histories: Seq<Seq<Seq<u8>>>,
}

impl QueueState {
    /// The queue without participants.
    pub open spec fn empty() -> QueueState {
        QueueState { records: Seq::empty(), histories: Seq::empty() }
    }

    /// A state is well formed when each record has its history, no key
    /// occurs twice, and each record counts the entries of its history, of
    /// which there is at least one.
    pub open spec fn wf(self) -> bool {
        &&& self.records.len() == self.histories.len()
        &&& forall|i: int, j: int|
            0 <= i < j < self.records.len() ==> (#[trigger] self.records[i]).key != (
            #[trigger] self.records[j]).key
        &&& forall|i: int|
            0 <= i < self.records.len() ==> (#[trigger] self.records[i]).history_len
                == self.histories[i].len()
        &&& forall|i: int| 0 <= i < self.histories.len() ==> (#[trigger] self.histories[i]).len() >= 1
    }

    /// Whether there is a record for `key`.
    pub open spec fn has(self, key: Seq<u8>) -> bool {
        exists|i: int| 0 <= i < self.records.len() && (#[trigger] self.records[i]).key == key
    }

    /// The position of the record for `key`, where there is one.
    pub open spec fn index_of(self, key: Seq<u8>) -> int {
        choose|i: int| 0 <= i < self.records.len() && (#[trigger] self.records[i]).key == key
    }

    /// The record for `key`, if any.
    pub open spec fn record(self, key: Seq<u8>) -> Option<Record> {
        if self.has(key) {
            Some(self.records[self.index_of(key)])
        } else {
            None
        }
    }

    /// The history of `key`: empty where there is no record for it.
    pub open spec fn history(self, key: Seq<u8>) -> Seq<Seq<u8>> {
        if self.has(key) {
            self.histories[self.index_of(key)]
        } else {
            Seq::empty()
        }
    }

    /// The record that is first in line, if any is eligible.
    pub open spec fn first(self) -> Option<Record> {
        select(self.records)
    }

    /// The state with one more record, whose history holds `transaction`
    /// alone.
    pub open spec fn added(self, record: Record, transaction: Seq<u8>) -> QueueState {
        QueueState {
            records: self.records.push(record),
            histories: self.histories.push(seq![transaction]),
        }
    }

    /// The state in which `record` has taken the place of the record at
    /// position `i`, and `transaction` was appended to that record's history.
    pub open spec fn replaced(self, i: int, record: Record, transaction: Seq<u8>) -> QueueState {
        QueueState {
            records: self.records.update(i, record),
            histories: self.histories.update(i, self.histories[i].push(transaction)),
        }
    }
}

/// In a well-formed state the record for a key stands at one position only.
pub proof fn lemma_index_of(state: QueueState, key: Seq<u8>, i: int)
    requires
        state.wf(),
        0 <= i < state.records.len(),
        state.records[i].key == key,
    ensures
        state.has(key),
        state.index_of(key) == i,
        state.record(key) == Some(state.records[i]),
        state.history(key) == state.histories[i],
{
    let j = state.index_of(key);
    assert(0 <= j < state.records.len() && state.records[j].key == key);
    if j < i {
        assert(state.records[j].key != state.records[i].key);
    } else if i < j {
        assert(state.records[i].key != state.records[j].key);
    }
}

/// The byte strings that a list of hashes holds, in the same order.
pub open spec fn hashes_view(v: Seq<crypto::Hash>) -> Seq<Seq<u8>> {
    Seq::new(v.len(), |i: int| v[i]@)
}

/// Whether `view` can give `commitment` as the digest of `history`.
pub open spec fn gives<T: Fn(&Vec<crypto::Hash>) -> crypto::Hash>(
    view: T,
    history: Vec<crypto::Hash>,
    commitment: Seq<u8>,
) -> bool {
    exists|d: crypto::Hash| #[trigger] call_ensures(view, (&history,), d) && d@ == commitment
}

/// The queue, together with the function that computes the digest of a
/// history.
pub struct Schema<T> {
    digest: T,
    participants: Vec<Participant>,
    histories: Vec<Vec<crypto::Hash>>,
}

/// The histories that a list of lists of hashes holds, in the same order.
pub open spec fn histories_view(v: Seq<Vec<crypto::Hash>>) -> Seq<Seq<Seq<u8>>> {
    Seq::new(v.len(), |i: int| hashes_view(v[i]@))
}

/// The state that a list of participants and a list of histories make up.
pub open spec fn state_of(
    participants: Seq<Participant>,
    histories: Seq<Vec<crypto::Hash>>,
) -> QueueState {
    QueueState { records: records_of(participants), histories: histories_view(histories) }
}

impl<T> View for Schema<T> {
    type V = QueueState;

    closed spec fn view(&self) -> QueueState {
        state_of(self.participants@, self.histories@)
    }
}

impl<T: Fn(&Vec<crypto::Hash>) -> crypto::Hash> Schema<T> {
    /// The function that computes digests.
    pub closed spec fn digest_fn(&self) -> T {
        self.digest
    }

    /// Whether the digest function can give `commitment` for `history`.
    pub open spec fn is_digest(&self, history: Seq<Seq<u8>>, commitment: Seq<u8>) -> bool {
        exists|h: Vec<crypto::Hash>|
            hashes_view(h@) == history && #[trigger] gives(self.digest_fn(), h, commitment)
    }

    /// Whether the digest function accepts every history.
    pub open spec fn digest_total(&self) -> bool {
        forall|h: Vec<crypto::Hash>| #[trigger] call_requires(self.digest_fn(), (&h,))
    }

    /// Whether each record holds a digest of its history as it is now.
    pub open spec fn committed(&self) -> bool {
        forall|i: int|
            0 <= i < self@.records.len() ==> self.is_digest(
                #[trigger] self@.histories[i],
                self@.records[i].history_hash,
            )
    }

    /// The schema is well formed when its state is, the digest function
    /// accepts every history, and each record holds a digest of its history.
    pub open spec fn wf(&self) -> bool {
        &&& self@.wf()
        &&& self.digest_total()
        &&& self.committed()
    }

    /// History consistency: in a well-formed schema the record of each
    /// participant counts the entries of the participant's history, and
    /// holds a digest of exactly that history.
    pub proof fn law_history_committed(&self, key: Seq<u8>)
        requires
            self.wf(),
            self@.has(key),
        ensures
            self@.record(key)->0.history_len == self@.history(key).len(),
            self.is_digest(self@.history(key), self@.record(key)->0.history_hash),
    {
        let i = self@.index_of(key);
        assert(0 <= i < self@.records.len() && self@.records[i].key == key);
        assert(self.is_digest(self@.histories[i], self@.records[i].history_hash));
    }

    /// Creates an empty queue whose digests are computed by `view`.
    pub fn new(view: T) -> (r: Self)
        requires
            forall|h: Vec<crypto::Hash>| #[trigger] call_requires(view, (&h,)),
        ensures
            r.wf(),
            r@ == QueueState::empty(),
            r.digest_fn() == view,
    {
        let r = Schema { digest: view, participants: Vec::new(), histories: Vec::new() };
        assert(r@.records =~= Seq::empty());
        assert(r@.histories =~= Seq::empty());
        r
    }
}

impl<T: Fn(&Vec<crypto::Hash>) -> crypto::Hash> Schema<T> {
    /// The position of the record for `key`.
    fn find(&self, key: &PublicKey) -> (r: Option<usize>)
        requires
            self.wf(),
        ensures
            match r {
                Some(i) => i < self.participants.len() && self@.has(key@) && self@.index_of(key@)
                    == i,
                None => !self@.has(key@),
            },
    {
        let mut i: usize = 0;
        while i < self.participants.len()
            invariant
                self.wf(),
                i <= self.participants.len(),
                forall|j: int| 0 <= j < i ==> (#[trigger] self@.records[j]).key != key@,
            decreases self.participants.len() - i,
        {
            if self.participants[i].key.same(key) {
                proof {
                    lemma_index_of(self@, key@, i as int);
                }
                return Some(i);
            }
            i += 1;
        }
        None
    }

    /// All the participants, in the order in which they were added.
    pub fn participants(&self) -> (r: &Vec<Participant>)
        ensures
            records_of(r@) == self@.records,
    {
        &self.participants
    }

    /// Returns the history of the participant with the given public key:
    /// the identifiers of the transactions accepted for it, oldest first.
    pub fn participant_history(&self, public_key: &PublicKey) -> (r: Vec<crypto::Hash>)
        requires
            self.wf(),
        ensures
            hashes_view(r@) == self@.history(public_key@),
    {
        let mut out: Vec<crypto::Hash> = Vec::new();
        match self.find(public_key) {
            Some(i) => {
                let history = &self.histories[i];
                let mut j: usize = 0;
                while j < history.len()
                    invariant
                        j <= history.len(),
                        out@ == history@.take(j as int),
                    decreases history.len() - j,
                {
                    out.push(history[j]);
                    assert(out@ =~= history@.take(j as int + 1));
                    j += 1;
                }
                assert(history@.take(j as int) =~= history@);
            },
            None => {
                assert(hashes_view(out@) =~= Seq::empty());
            },
        }
        out
    }

    /// Returns the participant for the given public key.
    pub fn participant(&self, pub_key: &PublicKey) -> (r: Option<Participant>)
        requires
            self.wf(),
        ensures
            match r {
                Some(p) => self@.record(pub_key@) == Some(p@),
                None => self@.record(pub_key@) is None,
            },
    {
        match self.find(pub_key) {
            Some(i) => Some(self.participants[i].clone()),
            None => None,
        }
    }

    /// Returns the participant that is first in line.
    pub fn first_participant(&self) -> (r: Option<Participant>)
        ensures
            match r {
                Some(p) => self@.first() == Some(p@),
                None => self@.first() is None,
            },
    {
        match first_index(&self.participants) {
            Some(i) => Some(self.participants[i].clone()),
            None => None,
        }
    }

    /// Creates a new participant and appends the first record to its
    /// history.
    pub fn add_participant(
        &mut self,
        key: &PublicKey,
        timestamp: u64,
        have_bought: bool,
        removed: bool,
        params: &str,
        transaction: &crypto::Hash,
    )
        requires
            old(self).wf(),
            !old(self)@.has(key@),
        ensures
            final(self).wf(),
            final(self).digest_fn() == old(self).digest_fn(),
            final(self)@ == old(self)@.added(
                Record {
                    key: key@,
                    timestamp: timestamp as nat,
                    params: params@,
                    have_bought,
                    removed,
                    history_len: 1,
                    history_hash: final(self)@.records.last().history_hash,
                },
                transaction@,
            ),
    {
        let mut history: Vec<crypto::Hash> = Vec::new();
        history.push(*transaction);
        assert(call_requires(self.digest_fn(), (&history,)));
        let history_hash = (self.digest)(&history);
        let ghost hashed = history;
        assert(call_ensures(self.digest_fn(), (&hashed,), history_hash));
        let created = Participant::new(
            key,
            timestamp,
            have_bought,
            removed,
            params,
            history.len() as u64,
            &history_hash,
        );
        let ghost before = self@;
        let ghost record = created@;
        let ghost entries = hashes_view(history@);
        assert(entries =~= seq![transaction@]);
        self.histories.push(history);
        self.participants.push(created);
        proof {
            assert(self@.records =~= before.records.push(record));
            assert(self@.histories =~= before.histories.push(entries));
            assert(self.digest_fn() == old(self).digest_fn());
            assert(hashes_view(hashed@) == entries && history_hash@ == record.history_hash);
            assert(gives(self.digest_fn(), hashed, record.history_hash));
            assert(self.is_digest(entries, record.history_hash));
            assert forall|i: int| 0 <= i < self@.records.len() implies self.is_digest(
                #[trigger] self@.histories[i],
                self@.records[i].history_hash,
            ) by {
                if i < before.records.len() {
                    assert(old(self).is_digest(before.histories[i], before.records[i].history_hash));
                }
            }
        }
    }
}

impl<T: Fn(&Vec<crypto::Hash>) -> crypto::Hash> Schema<T> {
    /// Appends `transaction` to the history at position `i` and returns the
    /// digest of the history as it then is.
    fn record_transaction(&mut self, i: usize, transaction: &crypto::Hash) -> (r: crypto::Hash)
        requires
            old(self).wf(),
            i < old(self)@.records.len(),
        ensures
            final(self).digest_fn() == old(self).digest_fn(),
            final(self).participants == old(self).participants,
            final(self)@.records == old(self)@.records,
            final(self)@.histories == old(self)@.histories.update(
                i as int,
                old(self)@.histories[i as int].push(transaction@),
            ),
            final(self).is_digest(final(self)@.histories[i as int], r@),
            old(self)@.histories[i as int].len() < usize::MAX,
    {
        let ghost before = self@;
        let mut history: Vec<crypto::Hash> = Vec::new();
        std::mem::swap(&mut history, &mut self.histories[i]);
        assert(hashes_view(history@) == before.histories[i as int]);
        history.push(*transaction);
        let grown: usize = history.len();
        assert(before.histories[i as int].len() + 1 == grown);
        assert(call_requires(self.digest_fn(), (&history,)));
        let digest = (self.digest)(&history);
        let ghost hashed = history;
        assert(call_ensures(self.digest_fn(), (&hashed,), digest));
        assert(gives(self.digest_fn(), hashed, digest@));
        assert(hashes_view(hashed@) =~= before.histories[i as int].push(transaction@));
        std::mem::swap(&mut history, &mut self.histories[i]);
        assert(self@.histories =~= before.histories.update(
            i as int,
            before.histories[i as int].push(transaction@),
        ));
        digest
    }

    /// Writes `updated` over the record at position `i`, whose history has
    /// just grown by one entry and now has the digest that `updated` holds.
    fn write_back(&mut self, i: usize, updated: Participant, Ghost(start): Ghost<Self>)
        requires
            start.wf(),
            i < start@.records.len(),
            old(self).digest_fn() == start.digest_fn(),
            old(self)@.records == start@.records,
            old(self)@.histories.len() == start@.histories.len(),
            forall|j: int|
                0 <= j < start@.histories.len() && j != i ==> old(self)@.histories[j]
                    == start@.histories[j],
            updated@.key == start@.records[i as int].key,
            updated@.history_len == old(self)@.histories[i as int].len(),
            old(self)@.histories[i as int].len() >= 1,
            old(self).is_digest(old(self)@.histories[i as int], updated@.history_hash),
        ensures
            final(self).wf(),
            final(self).digest_fn() == old(self).digest_fn(),
            final(self)@.records == old(self)@.records.update(i as int, updated@),
            final(self)@.histories == old(self)@.histories,
    {
        let ghost before = self@;
        let ghost record = updated@;
        self.participants.set(i, updated);
        proof {
            assert(self@.records =~= before.records.update(i as int, record));
            assert(self@.histories =~= before.histories);
            assert forall|j: int| 0 <= j < self@.records.len() implies self.is_digest(
                #[trigger] self@.histories[j],
                self@.records[j].history_hash,
            ) by {
                assert(self.digest_fn() == start.digest_fn());
                if j != i {
                    assert(start.is_digest(start@.histories[j], start@.records[j].history_hash));
                    assert(self@.histories[j] == start@.histories[j]);
                    assert(self@.records[j] == start@.records[j]);
                } else {
                    assert(old(self).is_digest(before.histories[j], record.history_hash));
                    assert(self@.histories[j] == before.histories[j]);
                    assert(self@.records[j] == record);
                }
            }
            assert forall|j: int, k: int| 0 <= j < k < self@.records.len() implies (
            #[trigger] self@.records[j]).key != (#[trigger] self@.records[k]).key by {
                assert(start@.records[j].key != start@.records[k].key);
            }
            assert forall|j: int| 0 <= j < self@.records.len() implies (
            #[trigger] self@.records[j]).history_len == self@.histories[j].len() by {
                if j != i {
                    assert(start@.records[j].history_len == start@.histories[j].len());
                }
            }
            assert forall|j: int| 0 <= j < self@.histories.len() implies (
            #[trigger] self@.histories[j]).len() >= 1 by {
                if j != i {
                    assert(start@.histories[j].len() >= 1);
                }
            }
        }
    }

    /// Records that a participant has bought: appends `transaction` to the
    /// participant's history and writes the record back, marked as having
    /// bought, with the new length and digest of the history.
    pub fn participant_have_bought(&mut self, participant: Participant, transaction: &crypto::Hash)
        requires
            old(self).wf(),
            old(self)@.record(participant.key@) == Some(participant@),
        ensures
            final(self).wf(),
            final(self).digest_fn() == old(self).digest_fn(),
            final(self)@ == old(self)@.replaced(
                old(self)@.index_of(participant.key@),
                participant@.bought(
                    final(self)@.records[old(self)@.index_of(participant.key@)].history_hash,
                ),
                transaction@,
            ),
    {
        let ghost start = *self;
        match self.find(&participant.key) {
            Some(i) => {
                let history_hash = self.record_transaction(i, transaction);
                let updated = participant.buy(&history_hash);
                self.write_back(i, updated, Ghost(start));
            },
            None => {},
        }
    }

    /// Removes a participant from the queue: appends `transaction` to the
    /// participant's history and writes the record back, marked as removed,
    /// with the new length and digest of the history.
    pub fn remove_participant(&mut self, participant: Participant, transaction: &crypto::Hash)
        requires
            old(self).wf(),
            old(self)@.record(participant.key@) == Some(participant@),
        ensures
            final(self).wf(),
            final(self).digest_fn() == old(self).digest_fn(),
            final(self)@ == old(self)@.replaced(
                old(self)@.index_of(participant.key@),
                participant@.struck(
                    final(self)@.records[old(self)@.index_of(participant.key@)].history_hash,
                ),
                transaction@,
            ),
    {
        let ghost start = *self;
        match self.find(&participant.key) {
            Some(i) => {
                let history_hash = self.record_transaction(i, transaction);
                let updated = participant.remove(&history_hash);
                self.write_back(i, updated, Ghost(start));
            },
            None => {},
        }
    }
}

/// Whether no key occurs twice among `participants`.
fn keys_differ(participants: &Vec<Participant>) -> (r: bool)
    ensures
        r == (forall|i: int, j: int|
            0 <= i < j < participants.len() ==> (#[trigger] participants@[i]).key@ != (
            #[trigger] participants@[j]).key@),
{
    let mut j: usize = 0;
    while j < participants.len()
        invariant
            j <= participants.len(),
            forall|a: int, b: int|
                0 <= a < b < j ==> (#[trigger] participants@[a]).key@ != (
                #[trigger] participants@[b]).key@,
        decreases participants.len() - j,
    {
        let mut i: usize = 0;
        while i < j
            invariant
                i <= j < participants.len(),
                forall|a: int|
                    0 <= a < i ==> (#[trigger] participants@[a]).key@ != participants@[j as int].key@,
            decreases j - i,
        {
            if participants[i].key.same(&participants[j].key) {
                return false;
            }
            i += 1;
        }
        j += 1;
    }
    true
}

/// Whether each participant counts the entries of the history at the same
/// position, and each history has an entry.
fn lengths_agree(participants: &Vec<Participant>, histories: &Vec<Vec<crypto::Hash>>) -> (r: bool)
    requires
        participants.len() == histories.len(),
    ensures
        r == (forall|i: int|
            0 <= i < participants.len() ==> (#[trigger] histories@[i]).len() >= 1
                && participants@[i].history_len == histories@[i].len()),
{
    let mut i: usize = 0;
    while i < participants.len()
        invariant
            i <= participants.len(),
            participants.len() == histories.len(),
            forall|a: int|
                0 <= a < i ==> (#[trigger] histories@[a]).len() >= 1 && participants@[a].history_len
                    == histories@[a].len(),
        decreases participants.len() - i,
    {
        let n: usize = histories[i].len();
        if n == 0 || participants[i].history_len != n as u64 {
            return false;
        }
        i += 1;
    }
    true
}

impl<T: Fn(&Vec<crypto::Hash>) -> crypto::Hash> Schema<T> {
    /// Makes a queue of the given participants and histories, where
    /// `histories[i]` is the history of `participants[i]`, with `view` to
    /// compute digests. Returns `None` where the two do not make up a
    /// well-formed state, or where `view` gives for some history another
    /// digest than the participant's record holds.
    pub fn restore(
        view: T,
        participants: Vec<Participant>,
        histories: Vec<Vec<crypto::Hash>>,
    ) -> (r: Option<Self>)
        requires
            forall|h: Vec<crypto::Hash>| #[trigger] call_requires(view, (&h,)),
        ensures
            match r {
                Some(schema) => schema.wf() && schema.digest_fn() == view && schema@ == state_of(
                    participants@,
                    histories@,
                ),
                None => !state_of(participants@, histories@).wf() || exists|
                    i: int,
                    d: crypto::Hash,
                |
                    0 <= i < histories.len() && #[trigger] call_ensures(view, (&histories@[i],), d)
                        && d@ != participants@[i].history_hash@,
            },
    {
        let ghost state = state_of(participants@, histories@);
        if participants.len() != histories.len() {
            return None;
        }
        if !keys_differ(&participants) {
            proof {
                if state.wf() {
                    assert forall|i: int, j: int| 0 <= i < j < participants.len() implies (
                    #[trigger] participants@[i]).key@ != (#[trigger] participants@[j]).key@ by {
                        assert(state.records[i].key != state.records[j].key);
                    }
                }
            }
            return None;
        }
        if !lengths_agree(&participants, &histories) {
            proof {
                if state.wf() {
                    assert forall|i: int| 0 <= i < participants.len() implies (
                    #[trigger] histories@[i]).len() >= 1 && participants@[i].history_len
                        == histories@[i].len() by {
                        assert(state.histories[i].len() >= 1);
                        assert(state.records[i].history_len == state.histories[i].len());
                    }
                }
            }
            return None;
        }
        let mut i: usize = 0;
        while i < histories.len()
            invariant
                i <= histories.len(),
                participants.len() == histories.len(),
                forall|h: Vec<crypto::Hash>| #[trigger] call_requires(view, (&h,)),
                forall|a: int|
                    0 <= a < i ==> #[trigger] gives(
                        view,
                        histories@[a],
                        participants@[a].history_hash@,
                    ),
            decreases histories.len() - i,
        {
            let digest = view(&histories[i]);
            if !digest.same(&participants[i].history_hash) {
                return None;
            }
            i += 1;
        }
        let schema = Schema { digest: view, participants, histories };
        proof {
            assert(schema@ == state);
            assert forall|a: int| 0 <= a < schema@.records.len() implies schema.is_digest(
                #[trigger] schema@.histories[a],
                schema@.records[a].history_hash,
            ) by {
                let h = schema.histories@[a];
                assert(schema.digest_fn() == view);
                assert(gives(schema.digest_fn(), h, schema.participants@[a].history_hash@));
                assert(hashes_view(h@) == schema@.histories[a]);
                assert(schema@.records[a].history_hash == schema.participants@[a].history_hash@);
            }
            assert forall|a: int, b: int| 0 <= a < b < state.records.len() implies (
            #[trigger] state.records[a]).key != (#[trigger] state.records[b]).key by {
                assert(schema.participants@[a].key@ != schema.participants@[b].key@);
            }
            assert forall|a: int| 0 <= a < state.records.len() implies (
            #[trigger] state.records[a]).history_len == state.histories[a].len() by {
                assert(schema.histories@[a].len() >= 1);
            }
            assert forall|a: int| 0 <= a < state.histories.len() implies (
            #[trigger] state.histories[a]).len() >= 1 by {
                assert(schema.histories@[a].len() >= 1);
            }
        }
        Some(schema)
    }
}

} // verus!
