//! Events, their grouping by transaction, and the records that carry them
//! through the pipeline.

use vstd::prelude::*;

use crate::felt::Felt;
use crate::header::{BlockHeader, SignedBlockHeader};

verus! {

/// The hash of a transaction.
#[derive(Clone, Copy, Debug, PartialEq, Eq, Hash)]
pub struct TransactionHash(pub Felt);

impl TransactionHash {
    /// Whether `self` and `other` are the same hash.
    pub fn same(&self, other: &TransactionHash) -> (equal: bool)
        ensures
            equal == (*self == *other),
    {
        self.0.same(&other.0)
    }
}

/// A log record that a transaction emitted while it ran.
#[derive(Clone, Debug, PartialEq, Eq)]
pub struct Event {
    pub from_address: Felt,
    pub keys: Vec<Felt>,
    pub data: Vec<Felt>,
}

/// The events of `tx` among `arrivals`, in the order in which they arrived.
pub open spec fn events_of(arrivals: Seq<(TransactionHash, Event)>, tx: TransactionHash) -> Seq<
    Event,
>
    decreases arrivals.len(),
{
    if arrivals.len() == 0 {
        Seq::empty()
    } else if arrivals.last().0 == tx {
        events_of(arrivals.drop_last(), tx).push(arrivals.last().1)
    } else {
        events_of(arrivals.drop_last(), tx)
    }
}

/// Whether an event of `tx` is among `arrivals`.
pub open spec fn mentions(arrivals: Seq<(TransactionHash, Event)>, tx: TransactionHash) -> bool {
    exists|i: int| 0 <= i < arrivals.len() && (#[trigger] arrivals[i]).0 == tx
}

/// `arrivals` by transaction: each transaction that emitted any of them,
/// with its events in arrival order.
pub open spec fn grouped(arrivals: Seq<(TransactionHash, Event)>) -> Map<
    TransactionHash,
    Seq<Event>,
> {
    Map::new(|tx: TransactionHash| mentions(arrivals, tx), |tx: TransactionHash| events_of(arrivals, tx))
}

/// `groups` after one more event of `tx`: it comes last among the events of
/// `tx`, and is the first where `tx` had none.
pub open spec fn appended(
    groups: Map<TransactionHash, Seq<Event>>,
    tx: TransactionHash,
    event: Event,
) -> Map<TransactionHash, Seq<Event>> {
    if groups.dom().contains(tx) {
        groups.insert(tx, groups[tx].push(event))
    } else {
        groups.insert(tx, seq![event])
    }
}

/// A transaction that `arrivals` does not mention has no events among them.
pub proof fn lemma_events_of_unmentioned(
    arrivals: Seq<(TransactionHash, Event)>,
    tx: TransactionHash,
)
    requires
        !mentions(arrivals, tx),
    ensures
        events_of(arrivals, tx) == Seq::<Event>::empty(),
    decreases arrivals.len(),
{
    if arrivals.len() > 0 {
        let front = arrivals.drop_last();
        assert(arrivals[arrivals.len() - 1].0 != tx);
        assert(!mentions(front, tx)) by {
            if mentions(front, tx) {
                let i = choose|i: int| 0 <= i < front.len() && (#[trigger] front[i]).0 == tx;
                assert(arrivals[i].0 == tx);
            }
        }
        lemma_events_of_unmentioned(front, tx);
    }
}

/// Grouping one more arrival appends it to its transaction's events and
/// leaves every other transaction as it was.
pub proof fn lemma_grouped_push(
    arrivals: Seq<(TransactionHash, Event)>,
    tx: TransactionHash,
    event: Event,
)
    ensures
        grouped(arrivals.push((tx, event))) == appended(grouped(arrivals), tx, event),
{
    let longer = arrivals.push((tx, event));
    assert(longer.drop_last() =~= arrivals);
    assert(longer.last() == (tx, event));
    assert(longer[arrivals.len() as int].0 == tx);
    if !mentions(arrivals, tx) {
        lemma_events_of_unmentioned(arrivals, tx);
        assert(Seq::<Event>::empty().push(event) =~= seq![event]);
    }
    assert forall|other: TransactionHash| mentions(longer, other) <==> (other == tx || mentions(
        arrivals,
        other,
    )) by {
        if mentions(longer, other) && other != tx {
            let i = choose|i: int| 0 <= i < longer.len() && (#[trigger] longer[i]).0 == other;
            assert(arrivals[i].0 == other);
        }
        if mentions(arrivals, other) {
            let i = choose|i: int| 0 <= i < arrivals.len() && (#[trigger] arrivals[i]).0 == other;
            assert(longer[i].0 == other);
        }
    }
    assert(grouped(longer) =~= appended(grouped(arrivals), tx, event));
}

spec fn keys_distinct(entries: Seq<(TransactionHash, Vec<Event>)>) -> bool {
    forall|i: int, j: int|
        0 <= i < j < entries.len() ==> (#[trigger] entries[i]).0 != (#[trigger] entries[j]).0
}

spec fn has_key(entries: Seq<(TransactionHash, Vec<Event>)>, tx: TransactionHash) -> bool {
    exists|i: int| 0 <= i < entries.len() && (#[trigger] entries[i]).0 == tx
}

spec fn index_of(entries: Seq<(TransactionHash, Vec<Event>)>, tx: TransactionHash) -> int {
    choose|i: int| 0 <= i < entries.len() && (#[trigger] entries[i]).0 == tx
}

spec fn as_map(entries: Seq<(TransactionHash, Vec<Event>)>) -> Map<TransactionHash, Seq<Event>> {
    Map::new(
        |tx: TransactionHash| has_key(entries, tx),
        |tx: TransactionHash| entries[index_of(entries, tx)].1@,
    )
}

proof fn lemma_index_of(entries: Seq<(TransactionHash, Vec<Event>)>, k: int)
    requires
        keys_distinct(entries),
        0 <= k < entries.len(),
    ensures
        has_key(entries, entries[k].0),
        index_of(entries, entries[k].0) == k,
{
    let tx = entries[k].0;
    let found = index_of(entries, tx);
    assert(entries[found].0 == tx);
    if found < k {
        assert(entries[found].0 != entries[k].0);
    } else if k < found {
        assert(entries[k].0 != entries[found].0);
    }
}

proof fn lemma_as_map_push(
    entries: Seq<(TransactionHash, Vec<Event>)>,
    tx: TransactionHash,
    events: Vec<Event>,
)
    requires
        keys_distinct(entries),
        !has_key(entries, tx),
    ensures
        keys_distinct(entries.push((tx, events))),
        as_map(entries.push((tx, events))) == as_map(entries).insert(tx, events@),
{
    let longer = entries.push((tx, events));
    assert(keys_distinct(longer)) by {
        assert forall|i: int, j: int| 0 <= i < j < longer.len() implies (#[trigger] longer[i]).0 != (
        #[trigger] longer[j]).0 by {
            if j < entries.len() {
                assert(entries[i].0 != entries[j].0);
            } else {
                assert(entries[i].0 != tx);
            }
        }
    }
    assert forall|other: TransactionHash| has_key(longer, other) <==> (other == tx || has_key(
        entries,
        other,
    )) by {
        if has_key(longer, other) && other != tx {
            let i = index_of(longer, other);
            assert(entries[i].0 == other);
        }
        if has_key(entries, other) {
            let i = index_of(entries, other);
            assert(longer[i].0 == other);
        }
        assert(longer[entries.len() as int].0 == tx);
    }
    assert forall|other: TransactionHash| has_key(longer, other) implies longer[index_of(
        longer,
        other,
    )].1@ == as_map(entries).insert(tx, events@)[other] by {
        let i = index_of(longer, other);
        lemma_index_of(longer, i);
        if other != tx {
            lemma_index_of(entries, i);
        }
    }
    assert(as_map(longer) =~= as_map(entries).insert(tx, events@));
}

proof fn lemma_as_map_update(
    entries: Seq<(TransactionHash, Vec<Event>)>,
    k: int,
    events: Vec<Event>,
)
    requires
        keys_distinct(entries),
        0 <= k < entries.len(),
    ensures
        keys_distinct(entries.update(k, (entries[k].0, events))),
        as_map(entries.update(k, (entries[k].0, events))) == as_map(entries).insert(
            entries[k].0,
            events@,
        ),
{
    let tx = entries[k].0;
    let changed = entries.update(k, (tx, events));
    assert(keys_distinct(changed)) by {
        assert forall|i: int, j: int| 0 <= i < j < changed.len() implies (#[trigger] changed[i]).0
            != (#[trigger] changed[j]).0 by {
            assert(entries[i].0 != entries[j].0);
        }
    }
    assert forall|other: TransactionHash| has_key(changed, other) <==> has_key(entries, other) by {
        if has_key(changed, other) {
            let i = index_of(changed, other);
            assert(entries[i].0 == other);
        }
        if has_key(entries, other) {
            let i = index_of(entries, other);
            assert(changed[i].0 == other);
        }
    }
    lemma_index_of(entries, k);
    assert forall|other: TransactionHash| has_key(changed, other) implies changed[index_of(
        changed,
        other,
    )].1@ == as_map(entries).insert(tx, events@)[other] by {
        let i = index_of(changed, other);
        lemma_index_of(changed, i);
        lemma_index_of(entries, i);
    }
    assert(as_map(changed) =~= as_map(entries).insert(tx, events@));
}

/// The events of a block by the transaction that emitted them. Each
/// transaction occurs once; the order of the transactions means nothing.
#[derive(Debug)]
pub struct EventsByTransaction {
    entries: Vec<(TransactionHash, Vec<Event>)>,
}

impl View for EventsByTransaction {
    type V = Map<TransactionHash, Seq<Event>>;

    closed spec fn view(&self) -> Map<TransactionHash, Seq<Event>> {
        as_map(self.entries@)
    }
}

impl EventsByTransaction {
    #[verifier::type_invariant]
    spec fn each_transaction_once(self) -> bool {
        keys_distinct(self.entries@)
    }

    /// No events of any transaction.
    pub fn new() -> (events: EventsByTransaction)
        ensures
            events@ == Map::<TransactionHash, Seq<Event>>::empty(),
    {
        let events = EventsByTransaction { entries: Vec::new() };
        assert(events@ =~= Map::<TransactionHash, Seq<Event>>::empty());
        events
    }

    /// Adds `event` behind the events that `tx` has so far.
    pub fn append(&mut self, tx: TransactionHash, event: Event)
        ensures
            final(self)@ == appended(old(self)@, tx, event),
    {
        proof {
            use_type_invariant(&*self);
        }
        let mut entries: Vec<(TransactionHash, Vec<Event>)> = Vec::new();
        core::mem::swap(&mut self.entries, &mut entries);
        let mut i: usize = 0;
        while i < entries.len()
            invariant
                i <= entries@.len(),
                entries@ == old(self).entries@,
                keys_distinct(entries@),
                forall|j: int| 0 <= j < i ==> (#[trigger] entries@[j]).0 != tx,
            decreases entries@.len() - i,
        {
            if entries[i].0.same(&tx) {
                let (key, mut events) = entries.remove(i);
                events.push(event);
                proof {
                    lemma_index_of(old(self).entries@, i as int);
                    lemma_as_map_update(old(self).entries@, i as int, events);
                }
                entries.insert(i, (key, events));
                assert(entries@ =~= old(self).entries@.update(i as int, (tx, events)));
                self.entries = entries;
                return ;
            }
            i += 1;
        }
        proof {
            assert(!has_key(entries@, tx)) by {
                if has_key(entries@, tx) {
                    let k = index_of(entries@, tx);
                    assert(entries@[k].0 != tx);
                }
            }
        }
        let mut events: Vec<Event> = Vec::new();
        events.push(event);
        proof {
            lemma_as_map_push(entries@, tx, events);
            assert(events@ =~= seq![event]);
        }
        entries.push((tx, events));
        self.entries = entries;
    }

    /// The events of `tx` in arrival order, if it has any.
    pub fn get(&self, tx: &TransactionHash) -> (events: Option<&Vec<Event>>)
        ensures
            events is Some <==> self@.dom().contains(*tx),
            events is Some ==> events->Some_0@ == self@[*tx],
    {
        proof {
            use_type_invariant(self);
        }
        let mut i: usize = 0;
        while i < self.entries.len()
            invariant
                i <= self.entries@.len(),
                keys_distinct(self.entries@),
                forall|j: int| 0 <= j < i ==> (#[trigger] self.entries@[j]).0 != *tx,
            decreases self.entries@.len() - i,
        {
            if self.entries[i].0.same(tx) {
                proof {
                    lemma_index_of(self.entries@, i as int);
                }
                return Some(&self.entries[i].1);
            }
            i += 1;
        }
        proof {
            assert(!has_key(self.entries@, *tx)) by {
                if has_key(self.entries@, *tx) {
                    let k = index_of(self.entries@, *tx);
                    assert(self.entries@[k].0 != *tx);
                }
            }
        }
        None
    }

    /// The transactions that have events, each once.
    pub fn transactions(&self) -> (keys: Vec<TransactionHash>)
        ensures
            keys@.no_duplicates(),
            forall|tx: TransactionHash| keys@.contains(tx) <==> self@.dom().contains(tx),
    {
        proof {
            use_type_invariant(self);
        }
        let mut keys: Vec<TransactionHash> = Vec::new();
        let mut i: usize = 0;
        while i < self.entries.len()
            invariant
                i <= self.entries@.len(),
                keys@.len() == i,
                forall|j: int| 0 <= j < i ==> keys@[j] == (#[trigger] self.entries@[j]).0,
            decreases self.entries@.len() - i,
        {
            keys.push(self.entries[i].0);
            i += 1;
        }
        proof {
            assert forall|a: int, b: int| 0 <= a < keys@.len() && 0 <= b < keys@.len() && a
                != b implies keys@[a] != keys@[b] by {
                if a < b {
                    assert(self.entries@[a].0 != self.entries@[b].0);
                } else {
                    assert(self.entries@[b].0 != self.entries@[a].0);
                }
            }
            assert forall|tx: TransactionHash| keys@.contains(tx) <==> self@.dom().contains(
                tx,
            ) by {
                if keys@.contains(tx) {
                    let k = choose|k: int| 0 <= k < keys@.len() && keys@[k] == tx;
                    assert(self.entries@[k].0 == tx);
                }
                if has_key(self.entries@, tx) {
                    let k = index_of(self.entries@, tx);
                    assert(keys@[k] == tx);
                }
            }
        }
        keys
    }
}

/// The events that were read for one block, with the header that declared
/// how many there are.
#[derive(Debug)]
pub struct BlockEvents {
    pub header: BlockHeader,
    pub events: EventsByTransaction,
}

/// A block as it is stored: its signed header and its events.
#[derive(Debug)]
pub struct BlockData {
    pub header: SignedBlockHeader,
    pub events: EventsByTransaction,
}

} // verus!
