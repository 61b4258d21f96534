use iphone_queue::crypto;
use iphone_queue::crypto::PublicKey;
use iphone_queue::schema::Schema;
use iphone_queue::transactions::{Add, Buy, Error, ParticipantTransactions, Remove};

type Digest = fn(&Vec<crypto::Hash>) -> crypto::Hash;

/// A digest that depends on every byte of every entry, on the order of the
/// entries and on their number.
fn digest(history: &Vec<crypto::Hash>) -> crypto::Hash {
    let mut out = [0u8; 32];
    out[0] = history.len() as u8;
    for (n, entry) in history.iter().enumerate() {
        for i in 0..32 {
            out[i] = out[(i + 31) % 32]
                .wrapping_mul(31)
                .wrapping_add(entry.bytes[i])
                .wrapping_add(n as u8);
        }
    }
    crypto::Hash::new(out)
}

fn queue() -> Schema<Digest> {
    Schema::new(digest as Digest)
}

fn key(byte: u8) -> PublicKey {
    PublicKey::new([byte; 32])
}

fn tx(byte: u8) -> crypto::Hash {
    crypto::Hash::new([byte; 32])
}

fn add(schema: &mut Schema<Digest>, k: u8, timestamp: u64, params: &str, id: u8) -> Result<(), Error> {
    Add { key: key(k), timestamp, params: params.to_string() }.execute(schema, &tx(id))
}

fn buy(schema: &mut Schema<Digest>, k: u8, id: u8) -> Result<(), Error> {
    Buy { key: key(k) }.execute(schema, &tx(id))
}

fn remove(schema: &mut Schema<Digest>, k: u8, id: u8) -> Result<(), Error> {
    Remove { key: key(k) }.execute(schema, &tx(id))
}

fn first_key(schema: &Schema<Digest>) -> Option<PublicKey> {
    schema.first_participant().map(|p| p.key)
}

#[test]
fn add_makes_the_participant_first() {
    let mut schema = queue();
    assert_eq!(add(&mut schema, 1, 100, "", 1), Ok(()));
    assert_eq!(first_key(&schema), Some(key(1)));
}

#[test]
fn add_writes_a_fresh_record() {
    let mut schema = queue();
    assert_eq!(add(&mut schema, 1, 100, "[[\"5\",\"int\"]]", 9), Ok(()));
    let p = schema.participant(&key(1)).unwrap();
    assert_eq!(p.key, key(1));
    assert_eq!(p.timestamp, 100);
    assert_eq!(p.params, "[[\"5\",\"int\"]]");
    assert_eq!(p.have_bought, false);
    assert_eq!(p.removed, false);
    assert_eq!(p.history_len, 1);
    assert_eq!(p.history_hash, digest(&vec![tx(9)]));
    assert_eq!(schema.participant_history(&key(1)), vec![tx(9)]);
}

#[test]
fn second_add_of_a_key_is_rejected() {
    let mut schema = queue();
    assert_eq!(add(&mut schema, 1, 100, "", 1), Ok(()));
    assert_eq!(add(&mut schema, 1, 200, "", 2), Err(Error::ParticipantAlreadyExists));
    let p = schema.participant(&key(1)).unwrap();
    assert_eq!(p.timestamp, 100);
    assert_eq!(p.history_len, 1);
    assert_eq!(schema.participant_history(&key(1)), vec![tx(1)]);
    assert_eq!(schema.participants().len(), 1);
}

#[test]
fn add_is_rejected_after_buy_and_after_remove() {
    let mut schema = queue();
    assert_eq!(add(&mut schema, 1, 100, "", 1), Ok(()));
    assert_eq!(buy(&mut schema, 1, 2), Ok(()));
    assert_eq!(add(&mut schema, 1, 100, "", 3), Err(Error::ParticipantAlreadyExists));
    assert_eq!(add(&mut schema, 2, 100, "", 4), Ok(()));
    assert_eq!(remove(&mut schema, 2, 5), Ok(()));
    assert_eq!(add(&mut schema, 2, 100, "", 6), Err(Error::ParticipantAlreadyExists));
}

#[test]
fn earlier_arrival_is_first() {
    let mut schema = queue();
    assert_eq!(add(&mut schema, 1, 100, "", 1), Ok(()));
    assert_eq!(add(&mut schema, 2, 50, "", 2), Ok(()));
    assert_eq!(first_key(&schema), Some(key(2)));
}

#[test]
fn buy_after_remove_is_not_first() {
    let mut schema = queue();
    assert_eq!(add(&mut schema, 1, 100, "", 1), Ok(()));
    assert_eq!(remove(&mut schema, 1, 2), Ok(()));
    assert_eq!(buy(&mut schema, 1, 3), Err(Error::ParticipantIsNotFirst));
    let p = schema.participant(&key(1)).unwrap();
    assert_eq!(p.have_bought, false);
    assert_eq!(p.history_len, 2);
}

#[test]
fn second_buy_is_already_bought() {
    let mut schema = queue();
    assert_eq!(add(&mut schema, 1, 100, "", 1), Ok(()));
    assert_eq!(buy(&mut schema, 1, 2), Ok(()));
    assert_eq!(buy(&mut schema, 1, 3), Err(Error::ParticipantAlreadyBought));
}

#[test]
fn equal_arrivals_are_told_apart_by_criteria() {
    let mut schema = queue();
    assert_eq!(add(&mut schema, 2, 100, "", 1), Ok(()));
    assert_eq!(add(&mut schema, 3, 100, "[[\"5\",\"int\"]]", 2), Ok(()));
    assert_eq!(add(&mut schema, 1, 100, "[[\"3\",\"int\"]]", 3), Ok(()));
    assert_eq!(first_key(&schema), Some(key(1)));
}

#[test]
fn smaller_integer_wins_whatever_the_keys() {
    let mut schema = queue();
    assert_eq!(add(&mut schema, 1, 100, "[[\"5\",\"int\"]]", 1), Ok(()));
    assert_eq!(add(&mut schema, 2, 100, "[[\"3\",\"int\"]]", 2), Ok(()));
    assert_eq!(first_key(&schema), Some(key(2)));

    let mut schema = queue();
    assert_eq!(add(&mut schema, 2, 100, "[[\"3\",\"int\"]]", 1), Ok(()));
    assert_eq!(add(&mut schema, 1, 100, "[[\"5\",\"int\"]]", 2), Ok(()));
    assert_eq!(first_key(&schema), Some(key(2)));
}

#[test]
fn residual_tie_goes_to_the_smaller_key() {
    let mut schema = queue();
    assert_eq!(add(&mut schema, 9, 100, "", 1), Ok(()));
    assert_eq!(add(&mut schema, 4, 100, "", 2), Ok(()));
    assert_eq!(add(&mut schema, 7, 100, "", 3), Ok(()));
    assert_eq!(first_key(&schema), Some(key(4)));
}

#[test]
fn residual_tie_looks_at_the_first_differing_byte() {
    let mut low = [5u8; 32];
    low[31] = 1;
    let mut high = [5u8; 32];
    high[31] = 2;
    let mut schema = queue();
    let a = Add { key: PublicKey::new(high), timestamp: 1, params: String::new() };
    let b = Add { key: PublicKey::new(low), timestamp: 1, params: String::new() };
    assert_eq!(a.execute(&mut schema, &tx(1)), Ok(()));
    assert_eq!(b.execute(&mut schema, &tx(2)), Ok(()));
    assert_eq!(first_key(&schema), Some(PublicKey::new(low)));
}

#[test]
fn empty_queue_has_no_first() {
    let schema = queue();
    assert!(schema.first_participant().is_none());
    assert!(schema.participants().is_empty());
    assert!(schema.participant(&key(1)).is_none());
    assert!(schema.participant_history(&key(1)).is_empty());
}

#[test]
fn no_first_when_nobody_is_eligible() {
    let mut schema = queue();
    assert_eq!(add(&mut schema, 1, 10, "", 1), Ok(()));
    assert_eq!(add(&mut schema, 2, 20, "", 2), Ok(()));
    assert_eq!(buy(&mut schema, 1, 3), Ok(()));
    assert_eq!(remove(&mut schema, 2, 4), Ok(()));
    assert!(schema.first_participant().is_none());
}

#[test]
fn buy_of_unknown_key_is_not_found() {
    let mut schema = queue();
    assert_eq!(buy(&mut schema, 1, 1), Err(Error::ParticipantNotFound));
    assert_eq!(add(&mut schema, 2, 10, "", 2), Ok(()));
    assert_eq!(buy(&mut schema, 1, 3), Err(Error::ParticipantNotFound));
}

#[test]
fn remove_of_unknown_key_is_not_found() {
    let mut schema = queue();
    assert_eq!(remove(&mut schema, 1, 1), Err(Error::ParticipantNotFound));
}

#[test]
fn second_remove_is_already_removed() {
    let mut schema = queue();
    assert_eq!(add(&mut schema, 1, 10, "", 1), Ok(()));
    assert_eq!(remove(&mut schema, 1, 2), Ok(()));
    assert_eq!(remove(&mut schema, 1, 3), Err(Error::ParticipantAlreadyRemoved));
    assert_eq!(schema.participant(&key(1)).unwrap().history_len, 2);
}

#[test]
fn buy_out_of_turn_is_not_first() {
    let mut schema = queue();
    assert_eq!(add(&mut schema, 1, 10, "", 1), Ok(()));
    assert_eq!(add(&mut schema, 2, 20, "", 2), Ok(()));
    assert_eq!(buy(&mut schema, 2, 3), Err(Error::ParticipantIsNotFirst));
    let p = schema.participant(&key(2)).unwrap();
    assert_eq!(p.have_bought, false);
    assert_eq!(p.history_len, 1);
    assert_eq!(schema.participant_history(&key(2)), vec![tx(2)]);
}

#[test]
fn already_bought_is_reported_before_not_first() {
    let mut schema = queue();
    assert_eq!(add(&mut schema, 1, 10, "", 1), Ok(()));
    assert_eq!(add(&mut schema, 2, 20, "", 2), Ok(()));
    assert_eq!(buy(&mut schema, 1, 3), Ok(()));
    assert_eq!(first_key(&schema), Some(key(2)));
    assert_eq!(buy(&mut schema, 1, 4), Err(Error::ParticipantAlreadyBought));
}

#[test]
fn next_participant_is_first_after_a_buy() {
    let mut schema = queue();
    assert_eq!(add(&mut schema, 1, 30, "", 1), Ok(()));
    assert_eq!(add(&mut schema, 2, 10, "", 2), Ok(()));
    assert_eq!(add(&mut schema, 3, 20, "", 3), Ok(()));
    assert_eq!(first_key(&schema), Some(key(2)));
    assert_eq!(buy(&mut schema, 2, 4), Ok(()));
    assert_eq!(first_key(&schema), Some(key(3)));
    assert_eq!(buy(&mut schema, 1, 5), Err(Error::ParticipantIsNotFirst));
    assert_eq!(buy(&mut schema, 3, 6), Ok(()));
    assert_eq!(first_key(&schema), Some(key(1)));
    assert_eq!(buy(&mut schema, 1, 7), Ok(()));
    assert_eq!(first_key(&schema), None);
}

#[test]
fn removed_participant_can_be_skipped() {
    let mut schema = queue();
    assert_eq!(add(&mut schema, 1, 10, "", 1), Ok(()));
    assert_eq!(add(&mut schema, 2, 20, "", 2), Ok(()));
    assert_eq!(remove(&mut schema, 1, 3), Ok(()));
    assert_eq!(first_key(&schema), Some(key(2)));
    assert_eq!(buy(&mut schema, 2, 4), Ok(()));
}

#[test]
fn bought_participant_can_still_be_removed() {
    let mut schema = queue();
    assert_eq!(add(&mut schema, 1, 10, "", 1), Ok(()));
    assert_eq!(buy(&mut schema, 1, 2), Ok(()));
    assert_eq!(remove(&mut schema, 1, 3), Ok(()));
    let p = schema.participant(&key(1)).unwrap();
    assert_eq!(p.have_bought, true);
    assert_eq!(p.removed, true);
    assert_eq!(p.history_len, 3);
}

#[test]
fn flags_are_never_reset() {
    let mut schema = queue();
    assert_eq!(add(&mut schema, 1, 10, "", 1), Ok(()));
    assert_eq!(add(&mut schema, 2, 20, "", 2), Ok(()));
    assert_eq!(buy(&mut schema, 1, 3), Ok(()));
    assert_eq!(remove(&mut schema, 2, 4), Ok(()));
    let _ = add(&mut schema, 1, 5, "", 5);
    let _ = add(&mut schema, 2, 5, "", 6);
    let _ = buy(&mut schema, 2, 7);
    let _ = remove(&mut schema, 1, 8);
    let _ = add(&mut schema, 3, 1, "", 9);
    let _ = buy(&mut schema, 3, 10);
    assert_eq!(schema.participant(&key(1)).unwrap().have_bought, true);
    assert_eq!(schema.participant(&key(1)).unwrap().removed, true);
    assert_eq!(schema.participant(&key(2)).unwrap().removed, true);
    assert_eq!(schema.participant(&key(2)).unwrap().have_bought, false);
    assert_eq!(schema.participant(&key(1)).unwrap().timestamp, 10);
}

#[test]
fn history_and_record_agree_after_each_operation() {
    let mut schema = queue();
    assert_eq!(add(&mut schema, 1, 10, "", 11), Ok(()));
    let p = schema.participant(&key(1)).unwrap();
    let h = schema.participant_history(&key(1));
    assert_eq!(h, vec![tx(11)]);
    assert_eq!(p.history_len, 1);
    assert_eq!(p.history_hash, digest(&h));

    assert_eq!(buy(&mut schema, 1, 12), Ok(()));
    let p = schema.participant(&key(1)).unwrap();
    let h = schema.participant_history(&key(1));
    assert_eq!(h, vec![tx(11), tx(12)]);
    assert_eq!(p.history_len, 2);
    assert_eq!(p.history_hash, digest(&h));

    assert_eq!(remove(&mut schema, 1, 13), Ok(()));
    let p = schema.participant(&key(1)).unwrap();
    let h = schema.participant_history(&key(1));
    assert_eq!(h, vec![tx(11), tx(12), tx(13)]);
    assert_eq!(p.history_len, 3);
    assert_eq!(p.history_hash, digest(&h));
}

#[test]
fn rejected_operation_changes_nothing() {
    let mut schema = queue();
    assert_eq!(add(&mut schema, 1, 10, "", 1), Ok(()));
    assert_eq!(add(&mut schema, 2, 20, "", 2), Ok(()));
    let before: Vec<_> = schema.participants().clone();
    assert_eq!(buy(&mut schema, 2, 3), Err(Error::ParticipantIsNotFirst));
    assert_eq!(add(&mut schema, 2, 1, "", 4), Err(Error::ParticipantAlreadyExists));
    assert_eq!(remove(&mut schema, 3, 5), Err(Error::ParticipantNotFound));
    assert_eq!(schema.participants(), &before);
    assert_eq!(schema.participant_history(&key(1)), vec![tx(1)]);
    assert_eq!(schema.participant_history(&key(2)), vec![tx(2)]);
}

#[test]
fn operations_on_one_key_leave_the_others_alone() {
    let mut schema = queue();
    assert_eq!(add(&mut schema, 1, 10, "", 1), Ok(()));
    assert_eq!(add(&mut schema, 2, 20, "x", 2), Ok(()));
    let other = schema.participant(&key(2)).unwrap();
    assert_eq!(buy(&mut schema, 1, 3), Ok(()));
    assert_eq!(remove(&mut schema, 1, 4), Ok(()));
    assert_eq!(schema.participant(&key(2)).unwrap(), other);
    assert_eq!(schema.participant_history(&key(2)), vec![tx(2)]);
}

#[test]
fn selection_with_distinct_arrivals_ignores_the_order_of_adds() {
    let orders: [[u8; 3]; 6] = [[1, 2, 3], [1, 3, 2], [2, 1, 3], [2, 3, 1], [3, 1, 2], [3, 2, 1]];
    for order in orders.iter() {
        let mut schema = queue();
        for (n, k) in order.iter().enumerate() {
            let timestamp = match k {
                1 => 300,
                2 => 100,
                _ => 200,
            };
            assert_eq!(add(&mut schema, *k, timestamp, "", n as u8), Ok(()));
        }
        assert_eq!(first_key(&schema), Some(key(2)));
    }
}

#[test]
fn transaction_group_executes_each_kind() {
    let mut schema = queue();
    let add = ParticipantTransactions::Add(Add { key: key(1), timestamp: 7, params: String::new() });
    let buy = ParticipantTransactions::Buy(Buy { key: key(1) });
    let remove = ParticipantTransactions::Remove(Remove { key: key(1) });
    assert_eq!(add.execute(&mut schema, &tx(1)), Ok(()));
    assert_eq!(add.clone().execute(&mut schema, &tx(2)), Err(Error::ParticipantAlreadyExists));
    assert_eq!(buy.execute(&mut schema, &tx(3)), Ok(()));
    assert_eq!(remove.execute(&mut schema, &tx(4)), Ok(()));
    assert_eq!(schema.participant_history(&key(1)), vec![tx(1), tx(3), tx(4)]);
}

#[test]
fn restore_accepts_what_a_queue_holds() {
    let mut schema = queue();
    assert_eq!(add(&mut schema, 1, 10, "", 1), Ok(()));
    assert_eq!(add(&mut schema, 2, 5, "", 2), Ok(()));
    assert_eq!(remove(&mut schema, 2, 3), Ok(()));
    let participants = schema.participants().clone();
    let histories = vec![schema.participant_history(&key(1)), schema.participant_history(&key(2))];
    let mut restored = Schema::restore(digest as Digest, participants.clone(), histories).unwrap();
    assert_eq!(restored.participants(), &participants);
    assert_eq!(restored.participant_history(&key(2)), vec![tx(2), tx(3)]);
    assert_eq!(first_key(&restored), Some(key(1)));
    assert_eq!(buy(&mut restored, 1, 4), Ok(()));
}

#[test]
fn restore_rejects_inconsistent_parts() {
    let mut schema = queue();
    assert_eq!(add(&mut schema, 1, 10, "", 1), Ok(()));
    let good = schema.participants().clone();
    let history = schema.participant_history(&key(1));

    assert!(Schema::restore(digest as Digest, good.clone(), vec![]).is_none());
    assert!(Schema::restore(digest as Digest, good.clone(), vec![vec![]]).is_none());
    assert!(Schema::restore(digest as Digest, good.clone(), vec![vec![tx(1), tx(2)]]).is_none());
    assert!(Schema::restore(digest as Digest, good.clone(), vec![vec![tx(2)]]).is_none());

    let twice = vec![good[0].clone(), good[0].clone()];
    assert!(Schema::restore(digest as Digest, twice, vec![history.clone(), history.clone()])
        .is_none());

    assert!(Schema::restore(digest as Digest, good, vec![history]).is_some());
}

#[test]
fn schema_writers_do_what_the_operations_do() {
    let mut schema = queue();
    schema.add_participant(&key(1), 10, false, false, "[]", &tx(1));
    let p = schema.participant(&key(1)).unwrap();
    schema.participant_have_bought(p, &tx(2));
    let p = schema.participant(&key(1)).unwrap();
    assert_eq!(p.have_bought, true);
    assert_eq!(p.history_len, 2);
    schema.remove_participant(p, &tx(3));
    let p = schema.participant(&key(1)).unwrap();
    assert_eq!(p.removed, true);
    assert_eq!(p.history_len, 3);
    assert_eq!(p.params, "[]");
    assert_eq!(p.history_hash, digest(&vec![tx(1), tx(2), tx(3)]));
}
