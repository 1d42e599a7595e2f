use chain_sync::event::{Event, EventsByTransaction, TransactionHash};
use chain_sync::felt::Felt;

fn tx(n: u64) -> TransactionHash {
    TransactionHash(Felt::from_u64(n))
}

fn event(n: u64) -> Event {
    Event { from_address: Felt::from_u64(n), keys: vec![Felt::from_u64(n + 1)], data: vec![] }
}

#[test]
fn a_new_grouping_holds_nothing() {
    let events = EventsByTransaction::new();
    assert!(events.transactions().is_empty());
    assert!(events.get(&tx(1)).is_none());
}

#[test]
fn the_first_event_of_a_transaction_opens_its_group() {
    let mut events = EventsByTransaction::new();
    events.append(tx(1), event(10));
    assert_eq!(events.get(&tx(1)), Some(&vec![event(10)]));
    assert_eq!(events.transactions(), vec![tx(1)]);
    assert!(events.get(&tx(2)).is_none());
}

#[test]
fn events_are_grouped_by_transaction_in_arrival_order() {
    let mut events = EventsByTransaction::new();
    events.append(tx(1), event(10));
    events.append(tx(2), event(20));
    events.append(tx(1), event(11));
    events.append(tx(3), event(30));
    events.append(tx(2), event(21));
    events.append(tx(1), event(12));

    assert_eq!(events.get(&tx(1)), Some(&vec![event(10), event(11), event(12)]));
    assert_eq!(events.get(&tx(2)), Some(&vec![event(20), event(21)]));
    assert_eq!(events.get(&tx(3)), Some(&vec![event(30)]));
    assert!(events.get(&tx(4)).is_none());

    let mut transactions = events.transactions();
    transactions.sort_by_key(|hash| hash.0.to_be_bytes());
    assert_eq!(transactions, vec![tx(1), tx(2), tx(3)]);
}

#[test]
fn equal_events_of_one_transaction_are_all_kept() {
    let mut events = EventsByTransaction::new();
    events.append(tx(5), event(1));
    events.append(tx(5), event(1));
    assert_eq!(events.get(&tx(5)), Some(&vec![event(1), event(1)]));
    assert_eq!(events.transactions().len(), 1);
}

#[test]
fn transaction_hashes_compare_by_all_bytes() {
    assert!(tx(7).same(&tx(7)));
    assert!(!tx(7).same(&tx(8)));
    assert!(!tx(1).same(&tx(1 << 40)));
}
