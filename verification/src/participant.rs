//! The record that the queue keeps for each participant.
use crate::crypto;
use crate::crypto::PublicKey;
use vstd::prelude::*;
use vstd::string::StringExecFns;

verus! {

/// What a participant's record says, as plain mathematical values.
pub struct Record {
    /// The participant's public key.
    pub key: Seq<u8>,
    /// Arrival time: the primary ordering key.
    pub timestamp: nat,
    /// Secondary ranking criteria, as the participant supplied them.
    pub params: Seq<char>,
    /// Whether the participant has bought.
    pub have_bought: bool,
    /// Whether the participant was removed from the queue.
    pub removed: bool,
    /// Number of entries in the participant's history.
    pub history_len: nat,
    /// Digest of the participant's history at the last write.
    pub history_hash: Seq<u8>,
}

impl Record {
    /// A record takes part in the selection of the next participant while it
    /// has neither bought nor been removed.
    pub open spec fn eligible(self) -> bool {
        !self.have_bought && !self.removed
    }

    /// The record after a purchase that left the history with the digest
    /// `history_hash`.
    pub open spec fn bought(self, history_hash: Seq<u8>) -> Record {
        Record { have_bought: true, history_len: self.history_len + 1, history_hash, ..self }
    }

    /// The record after a removal that left the history with the digest
    /// `history_hash`.
    pub open spec fn struck(self, history_hash: Seq<u8>) -> Record {
        Record { removed: true, history_len: self.history_len + 1, history_hash, ..self }
    }
}

/// Stores information about a participant.
#[derive(Debug, PartialEq, Eq)]
pub struct Participant {
    /// Public key of the participant.
    pub key: PublicKey,
    /// Arrival time.
    pub timestamp: u64,
    /// Secondary ranking criteria: a list of pairs of a value and its kind.
    pub params: String,
    /// Whether the participant has bought.
    pub have_bought: bool,
    /// Whether the participant was removed.
    pub removed: bool,
    /// Length of the transactions history.
    pub history_len: u64,
    /// `Hash` of the transactions history.
    pub history_hash: crypto::Hash,
}

impl View for Participant {
    type V = Record;

    open spec fn view(&self) -> Record {
        Record {
            key: self.key@,
            timestamp: self.timestamp as nat,
            params: self.params@,
            have_bought: self.have_bought,
            removed: self.removed,
            history_len: self.history_len as nat,
            history_hash: self.history_hash@,
        }
    }
}

/// The records that a list of participants holds, in the same order.
pub open spec fn records_of(v: Seq<Participant>) -> Seq<Record> {
    Seq::new(v.len(), |i: int| v[i]@)
}

impl Clone for Participant {
    fn clone(&self) -> (r: Self)
        ensures
            r == *self,
    {
        Participant {
            key: self.key,
            timestamp: self.timestamp,
            params: self.params.clone(),
            have_bought: self.have_bought,
            removed: self.removed,
            history_len: self.history_len,
            history_hash: self.history_hash,
        }
    }
}

impl Participant {
    /// Creates a new participant.
    pub fn new(
        key: &PublicKey,
        timestamp: u64,
        have_bought: bool,
        removed: bool,
        params: &str,
        history_len: u64,
        history_hash: &crypto::Hash,
    ) -> (r: Self)
        ensures
            r@ == (Record {
                key: key@,
                timestamp: timestamp as nat,
                params: params@,
                have_bought,
                removed,
                history_len: history_len as nat,
                history_hash: history_hash@,
            }),
    {
        Participant {
            key: *key,
            timestamp,
            params: String::from_str(params),
            have_bought,
            removed,
            history_len,
            history_hash: *history_hash,
        }
    }

    /// The participant after a purchase: marked as having bought, with one
    /// more entry in the history and the history's new digest.
    pub fn buy(self, history_hash: &crypto::Hash) -> (r: Self)
        requires
            self.history_len < u64::MAX,
        ensures
            r@ == self@.bought(history_hash@),
    {
        Participant {
            key: self.key,
            timestamp: self.timestamp,
            params: self.params,
            have_bought: true,
            removed: self.removed,
            history_len: self.history_len + 1,
            history_hash: *history_hash,
        }
    }

    /// The participant after a removal: marked as removed, with one more
    /// entry in the history and the history's new digest.
    pub fn remove(self, history_hash: &crypto::Hash) -> (r: Self)
        requires
            self.history_len < u64::MAX,
        ensures
            r@ == self@.struck(history_hash@),
    {
        Participant {
            key: self.key,
            timestamp: self.timestamp,
            params: self.params,
            have_bought: self.have_bought,
            removed: true,
            history_len: self.history_len + 1,
            history_hash: *history_hash,
        }
    }
}

} // verus!
