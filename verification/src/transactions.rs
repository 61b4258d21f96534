//! The three operations on the queue, and the errors they report.
use crate::crypto;
use crate::crypto::PublicKey;
use crate::participant::Record;
use crate::schema::{QueueState, Schema};
use vstd::prelude::*;
use vstd::string::StringExecFns;

verus! {

/// Error codes emitted by the operations.
#[derive(Clone, Copy, Debug, PartialEq, Eq, Structural)]
pub enum Error {
    /// Participant already exists.
    ///
    /// Can be emitted by `Add`.
    ParticipantAlreadyExists,
    /// Participant already removed.
    ///
    /// Can be emitted by `Remove`.
    ParticipantAlreadyRemoved,
    /// Can't find participant by key.
    ///
    /// Can be emitted by `Buy` and by `Remove`.
    ParticipantNotFound,
    /// Participant already bought a phone.
    ///
    /// Can be emitted by `Buy`.
    ParticipantAlreadyBought,
    /// Participant is not first.
    ///
    /// Can be emitted by `Buy`.
    ParticipantIsNotFirst,
}

impl Error {
    /// The code that stands for the error in a transaction's outcome.
    pub open spec fn code_of(self) -> u8 {
        match self {
            Error::ParticipantAlreadyExists => 0,
            Error::ParticipantAlreadyRemoved => 1,
            Error::ParticipantNotFound => 2,
            Error::ParticipantAlreadyBought => 3,
            Error::ParticipantIsNotFirst => 4,
        }
    }

    /// What the error says in words.
    pub open spec fn description_of(self) -> Seq<char> {
        match self {
            Error::ParticipantAlreadyExists => "Participant already exists"@,
            Error::ParticipantAlreadyRemoved => "Participant already removed"@,
            Error::ParticipantNotFound => "Can't find participant by key"@,
            Error::ParticipantAlreadyBought => "Participant already bought a phone"@,
            Error::ParticipantIsNotFirst => "Participant is not first"@,
        }
    }

    /// The code that stands for the error in a transaction's outcome.
    pub fn code(&self) -> (r: u8)
        ensures
            r == self.code_of(),
    {
        match self {
            Error::ParticipantAlreadyExists => 0,
            Error::ParticipantAlreadyRemoved => 1,
            Error::ParticipantNotFound => 2,
            Error::ParticipantAlreadyBought => 3,
            Error::ParticipantIsNotFirst => 4,
        }
    }

    /// What the error says in words.
    pub fn description(&self) -> (r: String)
        ensures
            r@ == self.description_of(),
    {
        match self {
            Error::ParticipantAlreadyExists => String::from_str("Participant already exists"),
            Error::ParticipantAlreadyRemoved => String::from_str("Participant already removed"),
            Error::ParticipantNotFound => String::from_str("Can't find participant by key"),
            Error::ParticipantAlreadyBought => String::from_str(
                "Participant already bought a phone",
            ),
            Error::ParticipantIsNotFirst => String::from_str("Participant is not first"),
        }
    }
}

/// An operation as plain mathematical values.
pub enum Operation {
    /// A participant joins the queue.
    Add { key: Seq<u8>, timestamp: nat, params: Seq<char> },
    /// A participant buys.
    Buy { key: Seq<u8> },
    /// A participant leaves the queue.
    Remove { key: Seq<u8> },
}

impl Operation {
    /// The key of the participant that the operation is about.
    pub open spec fn key(self) -> Seq<u8> {
        match self {
            Operation::Add { key, .. } => key,
            Operation::Buy { key } => key,
            Operation::Remove { key } => key,
        }
    }
}

/// Whether `state` accepts `op`, and with which error it rejects it. The
/// conditions are tested in the order in which they are written.
pub open spec fn outcome(state: QueueState, op: Operation) -> Result<(), Error> {
    match op {
        Operation::Add { key, .. } => if state.has(key) {
            Err(Error::ParticipantAlreadyExists)
        } else {
            Ok(())
        },
        Operation::Buy { key } => match state.record(key) {
            None => Err(Error::ParticipantNotFound),
            Some(record) => if record.have_bought {
                Err(Error::ParticipantAlreadyBought)
            } else if state.first() is Some && state.first()->0.key == key {
                Ok(())
            } else {
                Err(Error::ParticipantIsNotFirst)
            },
        },
        Operation::Remove { key } => match state.record(key) {
            None => Err(Error::ParticipantNotFound),
            Some(record) => if record.removed {
                Err(Error::ParticipantAlreadyRemoved)
            } else {
                Ok(())
            },
        },
    }
}

/// The state that an accepted operation leaves, where `transaction`
/// identifies the operation and `digest` is the digest of the participant's
/// history once `transaction` is appended to it.
pub open spec fn applied(
    state: QueueState,
    op: Operation,
    transaction: Seq<u8>,
    digest: Seq<u8>,
) -> QueueState {
    match op {
        Operation::Add { key, timestamp, params } => state.added(
            Record {
                key,
                timestamp,
                params,
                have_bought: false,
                removed: false,
                history_len: 1,
                history_hash: digest,
            },
            transaction,
        ),
        Operation::Buy { key } => state.replaced(
            state.index_of(key),
            state.records[state.index_of(key)].bought(digest),
            transaction,
        ),
        Operation::Remove { key } => state.replaced(
            state.index_of(key),
            state.records[state.index_of(key)].struck(digest),
            transaction,
        ),
    }
}

/// Whether executing `op` under the identifier `transaction` can lead from
/// `pre` to `post`: an accepted operation is applied with some digest, a
/// rejected one changes nothing.
pub open spec fn step(pre: QueueState, op: Operation, transaction: Seq<u8>, post: QueueState) -> bool {
    match outcome(pre, op) {
        Ok(_) => exists|digest: Seq<u8>| post == #[trigger] applied(pre, op, transaction, digest),
        Err(_) => post == pre,
    }
}

/// Create participant.
#[derive(Debug, PartialEq, Eq)]
pub struct Add {
    /// `PublicKey` of participant.
    pub key: PublicKey,
    /// Arrival time.
    pub timestamp: u64,
    /// Secondary ranking criteria; empty where there are none.
    pub params: String,
}

/// Buy a phone.
#[derive(Debug, PartialEq, Eq)]
pub struct Buy {
    /// `PublicKey` of participant.
    pub key: PublicKey,
}

/// Remove from queue.
#[derive(Debug, PartialEq, Eq)]
pub struct Remove {
    /// `PublicKey` of participant.
    pub key: PublicKey,
}

/// Transaction group.
#[derive(Debug, PartialEq, Eq)]
pub enum ParticipantTransactions {
    /// Add tx.
    Add(Add),
    /// Buy tx.
    Buy(Buy),
    /// Remove tx.
    Remove(Remove),
}

impl Clone for Add {
    fn clone(&self) -> (r: Self)
        ensures
            r == *self,
    {
        Add { key: self.key, timestamp: self.timestamp, params: self.params.clone() }
    }
}

impl Clone for Buy {
    fn clone(&self) -> (r: Self)
        ensures
            r == *self,
    {
        Buy { key: self.key }
    }
}

impl Clone for Remove {
    fn clone(&self) -> (r: Self)
        ensures
            r == *self,
    {
        Remove { key: self.key }
    }
}

impl Clone for ParticipantTransactions {
    fn clone(&self) -> (r: Self)
        ensures
            r == *self,
    {
        match self {
            ParticipantTransactions::Add(tx) => ParticipantTransactions::Add(tx.clone()),
            ParticipantTransactions::Buy(tx) => ParticipantTransactions::Buy(tx.clone()),
            ParticipantTransactions::Remove(tx) => ParticipantTransactions::Remove(tx.clone()),
        }
    }
}

impl View for Add {
    type V = Operation;

    open spec fn view(&self) -> Operation {
        Operation::Add { key: self.key@, timestamp: self.timestamp as nat, params: self.params@ }
    }
}

impl View for Buy {
    type V = Operation;

    open spec fn view(&self) -> Operation {
        Operation::Buy { key: self.key@ }
    }
}

impl View for Remove {
    type V = Operation;

    open spec fn view(&self) -> Operation {
        Operation::Remove { key: self.key@ }
    }
}

impl View for ParticipantTransactions {
    type V = Operation;

    open spec fn view(&self) -> Operation {
        match self {
            ParticipantTransactions::Add(tx) => tx@,
            ParticipantTransactions::Buy(tx) => tx@,
            ParticipantTransactions::Remove(tx) => tx@,
        }
    }
}

/// What the execution of `op` under the identifier `transaction` has done
/// when it led from `pre` to `post` and returned `result`.
pub open spec fn executed(
    pre: QueueState,
    op: Operation,
    transaction: Seq<u8>,
    post: QueueState,
    result: Result<(), Error>,
) -> bool {
    &&& result == outcome(pre, op)
    &&& result is Err ==> post == pre
    &&& result is Ok ==> post.has(op.key()) && post == applied(
        pre,
        op,
        transaction,
        post.record(op.key())->0.history_hash,
    )
}

impl Add {
    /// Adds the participant to the queue, unless the key is already there.
    pub fn execute<T: Fn(&Vec<crypto::Hash>) -> crypto::Hash>(
        &self,
        schema: &mut Schema<T>,
        tx_hash: &crypto::Hash,
    ) -> (r: Result<(), Error>)
        requires
            old(schema).wf(),
        ensures
            final(schema).wf(),
            final(schema).digest_fn() == old(schema).digest_fn(),
            executed(old(schema)@, self@, tx_hash@, final(schema)@, r),
    {
        if schema.participant(&self.key).is_none() {
            schema.add_participant(
                &self.key,
                self.timestamp,
                false,
                false,
                self.params.as_str(),
                tx_hash,
            );
            proof {
                let post = schema@;
                let last = post.records.len() - 1;
                crate::schema::lemma_index_of(post, self.key@, last);
            }
            Ok(())
        } else {
            Err(Error::ParticipantAlreadyExists)
        }
    }
}

impl Buy {
    /// Lets the participant buy, if it is in the queue, has not bought yet
    /// and is first in line.
    pub fn execute<T: Fn(&Vec<crypto::Hash>) -> crypto::Hash>(
        &self,
        schema: &mut Schema<T>,
        tx_hash: &crypto::Hash,
    ) -> (r: Result<(), Error>)
        requires
            old(schema).wf(),
        ensures
            final(schema).wf(),
            final(schema).digest_fn() == old(schema).digest_fn(),
            executed(old(schema)@, self@, tx_hash@, final(schema)@, r),
    {
        match schema.participant(&self.key) {
            Some(participant) => {
                if participant.have_bought {
                    return Err(Error::ParticipantAlreadyBought);
                }
                let is_first = match schema.first_participant() {
                    Some(first) => first.key.same(&participant.key),
                    None => false,
                };
                if !is_first {
                    return Err(Error::ParticipantIsNotFirst);
                }
                let ghost i = schema@.index_of(self.key@);
                schema.participant_have_bought(participant, tx_hash);
                proof {
                    crate::schema::lemma_index_of(schema@, self.key@, i);
                }
                Ok(())
            },
            None => Err(Error::ParticipantNotFound),
        }
    }
}

impl Remove {
    /// Removes the participant from the queue, if it is there and was not
    /// removed before.
    pub fn execute<T: Fn(&Vec<crypto::Hash>) -> crypto::Hash>(
        &self,
        schema: &mut Schema<T>,
        tx_hash: &crypto::Hash,
    ) -> (r: Result<(), Error>)
        requires
            old(schema).wf(),
        ensures
            final(schema).wf(),
            final(schema).digest_fn() == old(schema).digest_fn(),
            executed(old(schema)@, self@, tx_hash@, final(schema)@, r),
    {
        match schema.participant(&self.key) {
            Some(participant) => {
                if participant.removed {
                    return Err(Error::ParticipantAlreadyRemoved);
                }
                let ghost i = schema@.index_of(self.key@);
                schema.remove_participant(participant, tx_hash);
                proof {
                    crate::schema::lemma_index_of(schema@, self.key@, i);
                }
                Ok(())
            },
            None => Err(Error::ParticipantNotFound),
        }
    }
}

impl ParticipantTransactions {
    /// Executes the transaction, whichever of the three it is.
    pub fn execute<T: Fn(&Vec<crypto::Hash>) -> crypto::Hash>(
        &self,
        schema: &mut Schema<T>,
        tx_hash: &crypto::Hash,
    ) -> (r: Result<(), Error>)
        requires
            old(schema).wf(),
        ensures
            final(schema).wf(),
            final(schema).digest_fn() == old(schema).digest_fn(),
            executed(old(schema)@, self@, tx_hash@, final(schema)@, r),
    {
        match self {
            ParticipantTransactions::Add(tx) => tx.execute(schema, tx_hash),
            ParticipantTransactions::Buy(tx) => tx.execute(schema, tx_hash),
            ParticipantTransactions::Remove(tx) => tx.execute(schema, tx_hash),
        }
    }
}

} // verus!
