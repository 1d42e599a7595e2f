use std::collections::VecDeque;

use chain_sync::error::SyncError2;
use chain_sync::event::{BlockEvents, Event, TransactionHash};
use chain_sync::event_source::EventFeed;
use chain_sync::felt::Felt;
use chain_sync::header::{
    BlockCommitmentSignature, BlockHash, BlockHeader, BlockNumber, SignedBlockHeader,
};
use chain_sync::header_source::TipRound;
use chain_sync::peer::PeerData;
use chain_sync::store::{Ledger, LedgerStore, StoreFault};
use chain_sync::stream::ProcessStage;
use chain_sync::sync::Sync;
use libp2p::PeerId;

fn number(n: u64) -> BlockNumber {
    BlockNumber::new(n).unwrap()
}

fn block_hash(n: u64) -> BlockHash {
    BlockHash(Felt::from_u64(5000 + n))
}

fn signed(n: u64, event_count: usize) -> SignedBlockHeader {
    let header = BlockHeader {
        hash: block_hash(n),
        parent_hash: block_hash(n - 1),
        number: number(n),
        transaction_count: 2,
        event_count,
        transaction_commitment: Felt::zero(),
        event_commitment: Felt::from_u64(event_count as u64),
        state_commitment: Felt::zero(),
    };
    SignedBlockHeader {
        header,
        signature: BlockCommitmentSignature { r: Felt::from_u64(n), s: Felt::from_u64(n + 1) },
    }
}

fn tx(n: u64) -> TransactionHash {
    TransactionHash(Felt::from_u64(n))
}

fn event(n: u64) -> Event {
    Event { from_address: Felt::from_u64(n), keys: vec![Felt::from_u64(n)], data: vec![] }
}

/// Accepts a header that continues the chain from the one before it.
struct Continuity {
    next: u64,
    parent: BlockHash,
}

impl ProcessStage for Continuity {
    type Input = SignedBlockHeader;
    type Output = SignedBlockHeader;

    fn map(&mut self, input: SignedBlockHeader) -> Result<SignedBlockHeader, SyncError2> {
        if input.header.number.get() != self.next || input.header.parent_hash != self.parent {
            return Err(SyncError2::HeaderContinuityViolation);
        }
        self.next += 1;
        self.parent = input.header.hash;
        Ok(input)
    }
}

/// Accepts a header whose hash is the one that this test gives its number.
struct HashCheck;

impl ProcessStage for HashCheck {
    type Input = SignedBlockHeader;
    type Output = SignedBlockHeader;

    fn map(&mut self, input: SignedBlockHeader) -> Result<SignedBlockHeader, SyncError2> {
        if input.header.hash == block_hash(input.header.number.get()) {
            Ok(input)
        } else {
            Err(SyncError2::HeaderHashMismatch)
        }
    }
}

/// Accepts events whose first, if there is one, comes from the address that
/// the header commits to.
struct CommitmentCheck;

impl ProcessStage for CommitmentCheck {
    type Input = BlockEvents;
    type Output = BlockEvents;

    fn map(&mut self, input: BlockEvents) -> Result<BlockEvents, SyncError2> {
        let committed = input.header.event_commitment;
        let matches = input.events.transactions().iter().all(|tx| {
            input.events.get(tx).unwrap().iter().all(|event| event.from_address == committed)
        });
        if matches {
            Ok(input)
        } else {
            Err(SyncError2::CommitmentMismatch)
        }
    }
}

/// What the network serves in one session: the headers of the blocks from
/// `first` on, one for each count, and for each block as many events as the
/// header declares, spread over two transactions.
struct Session {
    first: u64,
    header_peers: Vec<PeerId>,
    event_peers: Vec<PeerId>,
    headers: Vec<SignedBlockHeader>,
    feeds: Vec<Vec<(TransactionHash, Event)>>,
}

impl Session {
    fn new(first: u64, counts: &[usize]) -> Session {
        let mut session = Session {
            first,
            header_peers: vec![],
            event_peers: vec![],
            headers: vec![],
            feeds: vec![],
        };
        for (i, count) in counts.iter().enumerate() {
            let n = first + i as u64;
            session.header_peers.push(PeerId::random());
            session.event_peers.push(PeerId::random());
            session.headers.push(signed(n, *count));
            let feed = (0..*count).map(|k| (tx(10 * n + k as u64 % 2), event(*count as u64)));
            session.feeds.push(feed.collect());
        }
        session
    }

    fn run(&self, store: LedgerStore) -> (Result<(), PeerData<SyncError2>>, LedgerStore) {
        self.run_in_rounds(store, &[self.headers.len()])
    }

    /// Runs the session with the headers served in rounds of the given
    /// sizes, one round for each tip.
    fn run_in_rounds(
        &self,
        store: LedgerStore,
        sizes: &[usize],
    ) -> (Result<(), PeerData<SyncError2>>, LedgerStore) {
        let mut served: VecDeque<PeerData<SignedBlockHeader>> = self
            .headers
            .iter()
            .zip(&self.header_peers)
            .map(|(header, peer)| PeerData { peer: *peer, data: *header })
            .collect();
        let mut rounds = VecDeque::new();
        let mut tip = self.first;
        for size in sizes {
            tip += *size as u64;
            let round = served.drain(..*size).collect();
            rounds.push_back(TipRound { tip: (number(tip), block_hash(tip)), served: round });
        }
        let feeds = self
            .feeds
            .iter()
            .zip(&self.event_peers)
            .map(|(events, peer)| EventFeed { peer: *peer, events: events.iter().cloned().collect() })
            .collect();
        let sync = Sync {
            rounds,
            feeds,
            continuity: Continuity { next: self.first, parent: block_hash(self.first - 1) },
            verify_hash: HashCheck,
            verify_commitment: CommitmentCheck,
            store,
        };
        sync.run(number(self.first))
    }
}

fn stored_numbers(ledger: &Ledger, from: u64, to: u64) -> Vec<u64> {
    (from..to).filter(|n| ledger.get(*n).is_some()).collect()
}

fn no_faults() -> LedgerStore {
    LedgerStore::new(VecDeque::new())
}

#[test]
fn a_clean_run_commits_every_block_and_succeeds() {
    let session = Session::new(100, &[0, 1, 2, 3, 1]);
    let (outcome, store) = session.run(no_faults());
    assert_eq!(outcome, Ok(()));
    assert_eq!(store.ledger.len(), 5);
    assert_eq!(stored_numbers(&store.ledger, 0, 200), vec![100, 101, 102, 103, 104]);
    for (i, header) in session.headers.iter().enumerate() {
        let block = store.ledger.get(100 + i as u64).unwrap();
        assert_eq!(block.header, *header);
        let count: usize = block
            .events
            .transactions()
            .iter()
            .map(|tx| block.events.get(tx).unwrap().len())
            .sum();
        assert_eq!(count, header.header.event_count);
    }
    let block = store.ledger.get(103).unwrap();
    assert_eq!(block.events.get(&tx(1030)), Some(&vec![event(3), event(3)]));
    assert_eq!(block.events.get(&tx(1031)), Some(&vec![event(3)]));
}

#[test]
fn a_long_clean_run_commits_as_many_blocks_as_headers() {
    let counts: Vec<usize> = (0..64).map(|i| i % 5).collect();
    let session = Session::new(1, &counts);
    let (outcome, store) = session.run(no_faults());
    assert_eq!(outcome, Ok(()));
    assert_eq!(store.ledger.len(), 64);
    assert_eq!(stored_numbers(&store.ledger, 0, 100), (1..65).collect::<Vec<u64>>());
}

#[test]
fn headers_served_over_several_tips_are_all_committed() {
    let session = Session::new(100, &[1, 0, 2, 3, 1, 0]);
    let (outcome, store) = session.run_in_rounds(no_faults(), &[2, 0, 3, 1]);
    assert_eq!(outcome, Ok(()));
    assert_eq!(stored_numbers(&store.ledger, 0, 200), vec![100, 101, 102, 103, 104, 105]);
}

#[test]
fn a_run_over_nothing_succeeds() {
    let session = Session::new(100, &[]);
    let (outcome, store) = session.run(no_faults());
    assert_eq!(outcome, Ok(()));
    assert_eq!(store.ledger.len(), 0);
}

#[test]
fn too_few_events_fail_the_run_under_the_serving_peer() {
    let mut session = Session::new(100, &[1, 2, 3, 1, 0]);
    session.feeds[2].pop();
    assert_eq!(session.feeds[2].len(), 2);
    let (outcome, store) = session.run(no_faults());
    assert_eq!(
        outcome,
        Err(PeerData { peer: session.event_peers[2], data: SyncError2::TooFewEvents })
    );
    assert_eq!(stored_numbers(&store.ledger, 0, 200), vec![100, 101]);
}

#[test]
fn too_many_events_fail_the_run_under_the_serving_peer() {
    let mut session = Session::new(100, &[1, 2, 3, 1, 0]);
    session.feeds[2].push((tx(1020), event(3)));
    assert_eq!(session.feeds[2].len(), 4);
    let (outcome, store) = session.run(no_faults());
    assert_eq!(
        outcome,
        Err(PeerData { peer: session.event_peers[2], data: SyncError2::TooManyEvents })
    );
    assert_eq!(stored_numbers(&store.ledger, 0, 200), vec![100, 101]);
}

#[test]
fn events_for_a_block_that_declares_none_are_too_many() {
    let mut session = Session::new(100, &[0, 0]);
    session.feeds[0].push((tx(1), event(0)));
    let (outcome, store) = session.run(no_faults());
    assert_eq!(
        outcome,
        Err(PeerData { peer: session.event_peers[0], data: SyncError2::TooManyEvents })
    );
    assert_eq!(store.ledger.len(), 0);
}

#[test]
fn a_broken_chain_fails_the_run_under_the_headers_peer() {
    let mut session = Session::new(100, &[1, 1, 1, 1]);
    session.headers[2].header.parent_hash = block_hash(7);
    let (outcome, store) = session.run(no_faults());
    assert_eq!(
        outcome,
        Err(PeerData {
            peer: session.header_peers[2],
            data: SyncError2::HeaderContinuityViolation
        })
    );
    assert_eq!(stored_numbers(&store.ledger, 0, 200), vec![100, 101]);
}

#[test]
fn a_gap_in_the_numbers_fails_the_run() {
    let mut session = Session::new(100, &[1, 1, 1]);
    session.headers[1] = signed(102, 1);
    let (outcome, store) = session.run(no_faults());
    assert_eq!(
        outcome,
        Err(PeerData {
            peer: session.header_peers[1],
            data: SyncError2::HeaderContinuityViolation
        })
    );
    assert_eq!(stored_numbers(&store.ledger, 0, 200), vec![100]);
}

#[test]
fn a_wrong_hash_fails_the_run_under_the_headers_peer() {
    let mut session = Session::new(100, &[1, 1, 1]);
    session.headers[2].header.hash = block_hash(9);
    let (outcome, store) = session.run(no_faults());
    assert_eq!(
        outcome,
        Err(PeerData { peer: session.header_peers[2], data: SyncError2::HeaderHashMismatch })
    );
    assert_eq!(stored_numbers(&store.ledger, 0, 200), vec![100, 101]);
}

#[test]
fn events_off_the_commitment_fail_the_run_under_the_serving_peer() {
    let mut session = Session::new(100, &[2, 2, 2]);
    session.feeds[1][1].1 = event(99);
    let (outcome, store) = session.run(no_faults());
    assert_eq!(
        outcome,
        Err(PeerData { peer: session.event_peers[1], data: SyncError2::CommitmentMismatch })
    );
    assert_eq!(stored_numbers(&store.ledger, 0, 200), vec![100]);
}

#[test]
fn the_first_of_two_failures_is_the_one_reported() {
    let mut session = Session::new(100, &[1, 1, 1, 1]);
    session.feeds[1].clear();
    session.headers[3].header.hash = block_hash(9);
    let (outcome, store) = session.run(no_faults());
    assert_eq!(
        outcome,
        Err(PeerData { peer: session.event_peers[1], data: SyncError2::TooFewEvents })
    );
    assert_eq!(stored_numbers(&store.ledger, 0, 200), vec![100]);
}

#[test]
fn a_failed_commit_fails_the_run_under_the_headers_peer() {
    let session = Session::new(100, &[1, 2, 3, 1]);
    let faults = vec![StoreFault::NoFault, StoreFault::NoFault, StoreFault::CommitFails];
    let (outcome, store) = session.run(LedgerStore::new(VecDeque::from(faults)));
    assert_eq!(
        outcome,
        Err(PeerData { peer: session.header_peers[2], data: SyncError2::ConnectionFailure })
    );
    assert_eq!(stored_numbers(&store.ledger, 0, 200), vec![100, 101]);
}

#[test]
fn a_run_after_a_failed_commit_ends_as_a_clean_run_does() {
    let session = Session::new(100, &[1, 2, 3, 1]);
    let (clean_outcome, clean) = session.run(no_faults());
    assert_eq!(clean_outcome, Ok(()));

    let faults = vec![StoreFault::NoFault, StoreFault::NoFault, StoreFault::CommitFails];
    let (outcome, store) = session.run(LedgerStore::new(VecDeque::from(faults)));
    assert!(outcome.is_err());
    assert_eq!(store.ledger.len(), 2);

    let again = LedgerStore { ledger: store.ledger, faults: VecDeque::new() };
    let (outcome, store) = session.run(again);
    assert_eq!(outcome, Ok(()));
    assert_eq!(store.ledger.len(), clean.ledger.len());
    for n in 100..104 {
        let block = store.ledger.get(n).unwrap();
        let expected = clean.ledger.get(n).unwrap();
        assert_eq!(block.header, expected.header);
        let mut transactions = block.events.transactions();
        transactions.sort_by_key(|tx| tx.0.to_be_bytes());
        let mut expected_transactions = expected.events.transactions();
        expected_transactions.sort_by_key(|tx| tx.0.to_be_bytes());
        assert_eq!(transactions, expected_transactions);
        for tx in &transactions {
            assert_eq!(block.events.get(tx), expected.events.get(tx));
        }
    }
}

#[test]
fn a_store_that_cannot_open_a_transaction_fails_the_first_block() {
    let session = Session::new(100, &[1, 1]);
    let (outcome, store) = session.run(LedgerStore::new(VecDeque::from(vec![StoreFault::OpenFails])));
    assert_eq!(
        outcome,
        Err(PeerData { peer: session.header_peers[0], data: SyncError2::ConnectionFailure })
    );
    assert_eq!(store.ledger.len(), 0);
}
