//! The two read-only queries on the queue.
use crate::crypto;
use crate::crypto::{hex_of, PublicKey};
use crate::participant::Participant;
use crate::schema::{hashes_view, Schema};
use vstd::prelude::*;

verus! {

/// Asks for the key of the first participant.
#[derive(Debug, Clone, Copy, PartialEq)]
pub struct GetFirstQuery {}

/// Describes the query parameters for the lookup of a participant.
#[derive(Debug, Clone, Copy, PartialEq)]
pub struct ParticipantQuery {
    /// Public key of the queried participant.
    pub pub_key: PublicKey,
}

/// What the queue holds about a participant.
#[derive(Debug)]
pub struct ParticipantInfo {
    /// The record of the participant, if there is one.
    pub participant: Option<Participant>,
    /// The history of the participant, if there is a record: the
    /// identifiers of the accepted transactions, oldest first.
    pub participant_history: Option<Vec<crypto::Hash>>,
}

/// Public service API description.
#[derive(Debug, Clone, Copy)]
pub struct PublicApi;

impl PublicApi {
    /// Looks a single participant up: the record, and with it the full
    /// history.
    pub fn participant_info<T: Fn(&Vec<crypto::Hash>) -> crypto::Hash>(
        schema: &Schema<T>,
        query: ParticipantQuery,
    ) -> (r: ParticipantInfo)
        requires
            schema.wf(),
        ensures
            match r.participant {
                Some(p) => schema@.record(query.pub_key@) == Some(p@),
                None => schema@.record(query.pub_key@) is None,
            },
            match r.participant_history {
                Some(h) => r.participant is Some && hashes_view(h@) == schema@.history(
                    query.pub_key@,
                ),
                None => r.participant is None,
            },
    {
        let participant = schema.participant(&query.pub_key);
        let participant_history = match participant {
            Some(_) => Some(schema.participant_history(&query.pub_key)),
            None => None,
        };
        ParticipantInfo { participant, participant_history }
    }

    /// The key of the participant that is first in line, in hexadecimal;
    /// `None` where no participant is eligible.
    pub fn get_first<T: Fn(&Vec<crypto::Hash>) -> crypto::Hash>(
        schema: &Schema<T>,
        _query: GetFirstQuery,
    ) -> (r: Option<String>)
        ensures
            match r {
                Some(s) => schema@.first() is Some && s@ == hex_of(schema@.first()->0.key),
                None => schema@.first() is None,
            },
    {
        match schema.first_participant() {
            Some(first) => Some(first.key.to_hex()),
            None => None,
        }
    }
}

} // verus!
