use chain_sync::block_stream::{BlockStream, BlockStreamAction, BlockStreamEvent};
use chain_sync::error::SyncError2;
use chain_sync::event::{BlockEvents, Event, EventsByTransaction, TransactionHash};
use chain_sync::event_source::{EventSource, EventSourceAction, EventSourceEvent};
use chain_sync::fanout::{FanoutAction, FanoutEvent, HeaderFanout};
use chain_sync::felt::Felt;
use chain_sync::header::{
    BlockCommitmentSignature, BlockHash, BlockHeader, BlockNumber, SignedBlockHeader,
};
use chain_sync::header_source::{
    HeaderRequest, HeaderSource, HeaderSourceAction, HeaderSourceEvent, SourcePhase,
};
use chain_sync::peer::{connection_failure, unattributed_connection_failure, PeerData};
use chain_sync::stream::{tag_outcome, ProcessStage, StageAction, StageEvent, StagePhase};
use chain_sync::sync::{Completion, CompletionAction, CompletionEvent};
use libp2p::PeerId;

fn number(n: u64) -> BlockNumber {
    BlockNumber::new(n).unwrap()
}

fn header(n: u64, event_count: usize) -> BlockHeader {
    BlockHeader {
        hash: BlockHash(Felt::from_u64(1000 + n)),
        parent_hash: BlockHash(Felt::from_u64(999 + n)),
        number: number(n),
        transaction_count: 1,
        event_count,
        transaction_commitment: Felt::zero(),
        event_commitment: Felt::zero(),
        state_commitment: Felt::zero(),
    }
}

fn signed(n: u64, event_count: usize) -> SignedBlockHeader {
    SignedBlockHeader {
        header: header(n, event_count),
        signature: BlockCommitmentSignature { r: Felt::from_u64(n), s: Felt::from_u64(n + 1) },
    }
}

fn tx(n: u64) -> TransactionHash {
    TransactionHash(Felt::from_u64(n))
}

fn event(n: u64) -> Event {
    Event { from_address: Felt::from_u64(n), keys: vec![], data: vec![Felt::from_u64(n)] }
}

/// Doubles a number and rejects odd ones.
struct DoubleEven {
    seen: usize,
}

impl ProcessStage for DoubleEven {
    type Input = u64;
    type Output = u64;

    fn map(&mut self, input: u64) -> Result<u64, SyncError2> {
        self.seen += 1;
        if input % 2 == 0 {
            Ok(input * 2)
        } else {
            Err(SyncError2::HeaderHashMismatch)
        }
    }
}

#[test]
fn block_numbers_end_at_the_largest() {
    assert_eq!(BlockNumber::new(0).unwrap().get(), 0);
    assert_eq!(BlockNumber::genesis().get(), 0);
    assert_eq!(BlockNumber::new(i64::MAX as u64).unwrap().get(), i64::MAX as u64);
    assert!(BlockNumber::new(i64::MAX as u64 + 1).is_none());
    assert!(BlockNumber::new(u64::MAX).is_none());
}

#[test]
fn an_outcome_is_attributed_to_the_peer_of_its_item() {
    let peer = PeerId::random();
    assert_eq!(tag_outcome(peer, Ok(5u8)), Ok(PeerData { peer, data: 5u8 }));
    assert_eq!(
        tag_outcome::<u8>(peer, Err(SyncError2::CommitmentMismatch)),
        Err(PeerData { peer, data: SyncError2::CommitmentMismatch })
    );
    assert_eq!(PeerData::new(peer, 3u8), PeerData { peer, data: 3u8 });
}

#[test]
fn a_connection_failure_names_its_peer() {
    let peer = PeerId::random();
    assert_eq!(
        connection_failure(peer),
        PeerData { peer, data: SyncError2::ConnectionFailure }
    );
    assert_eq!(unattributed_connection_failure().data, SyncError2::ConnectionFailure);
}

#[test]
fn a_stage_maps_values_and_keeps_their_peer() {
    let peer = PeerId::random();
    let mut stage = DoubleEven { seen: 0 };
    let (phase, action) = StagePhase::Idle.step(&mut stage, StageEvent::Started);
    assert_eq!(phase, StagePhase::Receiving);
    assert_eq!(action, StageAction::Receive);

    let item = Ok(PeerData { peer, data: 4 });
    let (phase, action) = phase.step(&mut stage, StageEvent::Received(item));
    assert_eq!(phase, StagePhase::Forwarding);
    assert_eq!(action, StageAction::Send(Ok(PeerData { peer, data: 8 })));
    assert_eq!(stage.seen, 1);

    let (phase, action) = phase.step(&mut stage, StageEvent::Delivered);
    assert_eq!(phase, StagePhase::Receiving);
    assert_eq!(action, StageAction::Receive);

    let (phase, action) = phase.step(&mut stage, StageEvent::Closed);
    assert_eq!(phase, StagePhase::Stopped);
    assert_eq!(action, StageAction::Stop);
    assert_eq!(stage.seen, 1);
}

#[test]
fn a_stage_that_rejects_sends_the_failure_and_ends() {
    let peer = PeerId::random();
    let mut stage = DoubleEven { seen: 0 };
    let item = Ok(PeerData { peer, data: 3 });
    let (phase, action) = StagePhase::Receiving.step(&mut stage, StageEvent::Received(item));
    assert_eq!(phase, StagePhase::Finishing);
    assert_eq!(
        action,
        StageAction::Send(Err(PeerData { peer, data: SyncError2::HeaderHashMismatch }))
    );
    let (phase, action) = phase.step(&mut stage, StageEvent::Delivered);
    assert_eq!(phase, StagePhase::Stopped);
    assert_eq!(action, StageAction::Stop);
}

#[test]
fn a_stage_passes_a_failure_on_without_mapping_it() {
    let peer = PeerId::random();
    let mut stage = DoubleEven { seen: 0 };
    let failure = PeerData { peer, data: SyncError2::TooFewEvents };
    let (phase, action) =
        StagePhase::Receiving.step(&mut stage, StageEvent::Received(Err(failure)));
    assert_eq!(phase, StagePhase::Finishing);
    assert_eq!(action, StageAction::Send(Err(failure)));
    assert_eq!(stage.seen, 0);
    let (phase, action) = phase.step(&mut stage, StageEvent::ReceiverGone);
    assert_eq!(phase, StagePhase::Stopped);
    assert_eq!(action, StageAction::Stop);
}

#[test]
fn a_stage_stops_when_its_receiver_is_gone() {
    let mut stage = DoubleEven { seen: 0 };
    for phase in [
        StagePhase::Idle,
        StagePhase::Receiving,
        StagePhase::Forwarding,
        StagePhase::Finishing,
        StagePhase::Stopped,
    ] {
        let (next, action) = phase.step(&mut stage, StageEvent::ReceiverGone);
        assert_eq!(next, StagePhase::Stopped);
        assert_eq!(action, StageAction::Stop);
    }
    let peer = PeerId::random();
    let (next, action) = StagePhase::Stopped
        .step(&mut stage, StageEvent::Received(Ok(PeerData { peer, data: 2 })));
    assert_eq!(next, StagePhase::Stopped);
    assert_eq!(action, StageAction::Stop);
    assert_eq!(stage.seen, 0);
}

#[test]
fn the_header_source_requests_from_its_cursor_to_the_tip() {
    let peer = PeerId::random();
    let source = HeaderSource::new(number(100));
    assert_eq!(source, HeaderSource { cursor: 100, phase: SourcePhase::Idle });

    let (source, action) = source.step(HeaderSourceEvent::Started);
    assert_eq!(action, HeaderSourceAction::NextTip);

    let tip_hash = BlockHash(Felt::from_u64(1));
    let (source, action) = source.step(HeaderSourceEvent::Tip(number(105), tip_hash));
    assert_eq!(
        action,
        HeaderSourceAction::RequestHeaders(HeaderRequest {
            start: 100,
            stop: number(105),
            reverse: false
        })
    );

    let first = PeerData { peer, data: signed(100, 0) };
    let (source, action) = source.step(HeaderSourceEvent::Header(first));
    assert_eq!(action, HeaderSourceAction::Emit(Ok(first)));
    assert_eq!(source.cursor, 101);

    let (source, action) = source.step(HeaderSourceEvent::Delivered);
    assert_eq!(action, HeaderSourceAction::NextHeader);

    let skipped = PeerData { peer, data: signed(103, 0) };
    let (source, action) = source.step(HeaderSourceEvent::Header(skipped));
    assert_eq!(action, HeaderSourceAction::Emit(Ok(skipped)));
    assert_eq!(source.cursor, 104);

    let (source, _) = source.step(HeaderSourceEvent::Delivered);
    let (source, action) = source.step(HeaderSourceEvent::HeadersEnded);
    assert_eq!(action, HeaderSourceAction::NextTip);
    assert_eq!(source.cursor, 104);

    let (source, action) = source.step(HeaderSourceEvent::Tip(number(110), tip_hash));
    assert_eq!(
        action,
        HeaderSourceAction::RequestHeaders(HeaderRequest {
            start: 104,
            stop: number(110),
            reverse: false
        })
    );

    let (source, _) = source.step(HeaderSourceEvent::HeadersEnded);
    let (source, action) = source.step(HeaderSourceEvent::TipsEnded);
    assert_eq!(action, HeaderSourceAction::Stop);
    assert_eq!(source.phase, SourcePhase::Stopped);
}

#[test]
fn the_cursor_passes_the_largest_block_number_without_overflow() {
    let peer = PeerId::random();
    let last = PeerData { peer, data: signed(i64::MAX as u64, 0) };
    let source = HeaderSource { cursor: 5, phase: SourcePhase::Streaming };
    let (source, _) = source.step(HeaderSourceEvent::Header(last));
    assert_eq!(source.cursor, i64::MAX as u64 + 1);
}

#[test]
fn the_header_source_stops_when_its_receiver_is_gone() {
    for phase in [
        SourcePhase::Idle,
        SourcePhase::AwaitingTip,
        SourcePhase::Streaming,
        SourcePhase::Sending,
        SourcePhase::Stopped,
    ] {
        let source = HeaderSource { cursor: 9, phase };
        let (next, action) = source.step(HeaderSourceEvent::ReceiverGone);
        assert_eq!(next, HeaderSource { cursor: 9, phase: SourcePhase::Stopped });
        assert_eq!(action, HeaderSourceAction::Stop);
    }
    let stopped = HeaderSource { cursor: 9, phase: SourcePhase::Stopped };
    let tip = HeaderSourceEvent::Tip(number(20), BlockHash(Felt::zero()));
    assert_eq!(stopped.step(tip).1, HeaderSourceAction::Stop);
}

#[test]
fn the_fanout_sends_each_header_to_both_channels() {
    let peer = PeerId::random();
    let item = PeerData { peer, data: signed(7, 2) };
    let (state, action) = HeaderFanout::Idle.step(FanoutEvent::Started);
    assert_eq!((state, action), (HeaderFanout::Receiving, FanoutAction::Receive));

    let (state, action) = state.step(FanoutEvent::Received(Ok(item)));
    assert_eq!(state, HeaderFanout::SendingSigned { header: header(7, 2) });
    assert_eq!(action, FanoutAction::SendSigned(Ok(item)));

    let (state, action) = state.step(FanoutEvent::Delivered);
    assert_eq!(state, HeaderFanout::SendingPlain);
    assert_eq!(action, FanoutAction::SendPlain(header(7, 2)));

    let (state, action) = state.step(FanoutEvent::Delivered);
    assert_eq!((state, action), (HeaderFanout::Receiving, FanoutAction::Receive));

    let (state, action) = state.step(FanoutEvent::Closed);
    assert_eq!((state, action), (HeaderFanout::Stopped, FanoutAction::Stop));
}

#[test]
fn the_fanout_sends_a_failure_to_the_first_channel_only() {
    let peer = PeerId::random();
    let failure = PeerData { peer, data: SyncError2::HeaderContinuityViolation };
    let (state, action) = HeaderFanout::Receiving.step(FanoutEvent::Received(Err(failure)));
    assert_eq!(state, HeaderFanout::SendingFailure);
    assert_eq!(action, FanoutAction::SendSigned(Err(failure)));
    let (state, action) = state.step(FanoutEvent::Delivered);
    assert_eq!((state, action), (HeaderFanout::Stopped, FanoutAction::Stop));
}

#[test]
fn the_fanout_stops_when_either_receiver_is_gone() {
    for state in [
        HeaderFanout::Idle,
        HeaderFanout::Receiving,
        HeaderFanout::SendingSigned { header: header(1, 0) },
        HeaderFanout::SendingFailure,
        HeaderFanout::SendingPlain,
        HeaderFanout::Stopped,
    ] {
        let (next, action) = state.step(FanoutEvent::ReceiverGone);
        assert_eq!((next, action), (HeaderFanout::Stopped, FanoutAction::Stop));
    }
    let (next, action) = HeaderFanout::Stopped.step(FanoutEvent::Delivered);
    assert_eq!((next, action), (HeaderFanout::Stopped, FanoutAction::Stop));
}

#[test]
fn the_event_source_asks_again_while_no_peer_serves() {
    let (state, action) = EventSource::Idle.step(EventSourceEvent::Started);
    assert!(matches!(action, EventSourceAction::NextHeader));
    let (state, action) = state.step(EventSourceEvent::Header(header(42, 1)));
    assert!(matches!(action, EventSourceAction::RequestEvents(n) if n == number(42)));
    let (state, action) = state.step(EventSourceEvent::NoPeer);
    assert!(matches!(action, EventSourceAction::RequestEvents(n) if n == number(42)));
    let (state, action) = state.step(EventSourceEvent::NoPeer);
    assert!(matches!(action, EventSourceAction::RequestEvents(n) if n == number(42)));
    assert!(matches!(state, EventSource::Polling { header: h } if h == header(42, 1)));
    let (state, action) = state.step(EventSourceEvent::Serving(PeerId::random()));
    assert!(matches!(action, EventSourceAction::NextEvent));
    assert!(matches!(state, EventSource::Reading { remaining: 1, .. }));
}

#[test]
fn the_event_source_reads_exactly_the_declared_events() {
    let peer = PeerId::random();
    let state = EventSource::Polling { header: header(42, 3) };
    let (state, _) = state.step(EventSourceEvent::Serving(peer));
    let (state, action) = state.step(EventSourceEvent::Arrived(tx(1), event(10)));
    assert!(matches!(action, EventSourceAction::NextEvent));
    assert!(matches!(state, EventSource::Reading { remaining: 2, .. }));
    let (state, _) = state.step(EventSourceEvent::Arrived(tx(2), event(20)));
    assert!(matches!(state, EventSource::Reading { remaining: 1, .. }));
    let (state, action) = state.step(EventSourceEvent::Arrived(tx(1), event(11)));
    assert!(matches!(action, EventSourceAction::NextEvent));
    assert!(matches!(state, EventSource::Draining { .. }));

    let (state, action) = state.step(EventSourceEvent::StreamEnded);
    assert!(matches!(state, EventSource::Emitting));
    match action {
        EventSourceAction::Emit(Ok(read)) => {
            assert_eq!(read.peer, peer);
            assert_eq!(read.data.header, header(42, 3));
            assert_eq!(read.data.events.get(&tx(1)), Some(&vec![event(10), event(11)]));
            assert_eq!(read.data.events.get(&tx(2)), Some(&vec![event(20)]));
            assert_eq!(read.data.events.transactions().len(), 2);
        }
        other => panic!("unexpected action {:?}", other),
    }
    let (state, action) = state.step(EventSourceEvent::Delivered);
    assert!(matches!(state, EventSource::AwaitingHeader));
    assert!(matches!(action, EventSourceAction::NextHeader));
    let (state, action) = state.step(EventSourceEvent::HeadersClosed);
    assert!(matches!(state, EventSource::Stopped));
    assert!(matches!(action, EventSourceAction::Stop));
}

#[test]
fn a_block_without_events_expects_an_empty_stream() {
    let peer = PeerId::random();
    let state = EventSource::Polling { header: header(42, 0) };
    let (state, action) = state.step(EventSourceEvent::Serving(peer));
    assert!(matches!(action, EventSourceAction::NextEvent));
    assert!(matches!(state, EventSource::Draining { .. }));
    let (_, action) = state.step(EventSourceEvent::StreamEnded);
    match action {
        EventSourceAction::Emit(Ok(read)) => {
            assert_eq!(read.peer, peer);
            assert!(read.data.events.transactions().is_empty());
        }
        other => panic!("unexpected action {:?}", other),
    }

    let state = EventSource::Polling { header: header(42, 0) };
    let (state, _) = state.step(EventSourceEvent::Serving(peer));
    let (state, action) = state.step(EventSourceEvent::Arrived(tx(1), event(1)));
    assert!(matches!(state, EventSource::Failing));
    let expected = PeerData { peer, data: SyncError2::TooManyEvents };
    assert!(matches!(action, EventSourceAction::Emit(Err(failure)) if failure == expected));
}

#[test]
fn a_stream_that_ends_early_is_too_few_events() {
    let peer = PeerId::random();
    let state = EventSource::Polling { header: header(42, 3) };
    let (state, _) = state.step(EventSourceEvent::Serving(peer));
    let (state, _) = state.step(EventSourceEvent::Arrived(tx(1), event(10)));
    let (state, _) = state.step(EventSourceEvent::Arrived(tx(1), event(11)));
    let (state, action) = state.step(EventSourceEvent::StreamEnded);
    assert!(matches!(state, EventSource::Failing));
    let expected = PeerData { peer, data: SyncError2::TooFewEvents };
    assert!(matches!(action, EventSourceAction::Emit(Err(failure)) if failure == expected));
    let (state, action) = state.step(EventSourceEvent::Delivered);
    assert!(matches!(state, EventSource::Stopped));
    assert!(matches!(action, EventSourceAction::Stop));
}

#[test]
fn a_stream_that_goes_on_is_too_many_events() {
    let peer = PeerId::random();
    let state = EventSource::Polling { header: header(42, 3) };
    let (state, _) = state.step(EventSourceEvent::Serving(peer));
    let (state, _) = state.step(EventSourceEvent::Arrived(tx(1), event(10)));
    let (state, _) = state.step(EventSourceEvent::Arrived(tx(1), event(11)));
    let (state, _) = state.step(EventSourceEvent::Arrived(tx(1), event(12)));
    let (state, action) = state.step(EventSourceEvent::Arrived(tx(1), event(13)));
    assert!(matches!(state, EventSource::Failing));
    let expected = PeerData { peer, data: SyncError2::TooManyEvents };
    assert!(matches!(action, EventSourceAction::Emit(Err(failure)) if failure == expected));
    let (state, action) = state.step(EventSourceEvent::ReceiverGone);
    assert!(matches!(state, EventSource::Stopped));
    assert!(matches!(action, EventSourceAction::Stop));
}

#[test]
fn the_event_source_stops_when_its_receiver_is_gone() {
    let peer = PeerId::random();
    let block = || BlockEvents { header: header(1, 2), events: EventsByTransaction::new() };
    let states = vec![
        EventSource::Idle,
        EventSource::AwaitingHeader,
        EventSource::Polling { header: header(1, 2) },
        EventSource::Reading { peer, block: block(), remaining: 2 },
        EventSource::Draining { peer, block: block() },
        EventSource::Emitting,
        EventSource::Failing,
        EventSource::Stopped,
    ];
    for state in states {
        let (next, action) = state.step(EventSourceEvent::ReceiverGone);
        assert!(matches!(next, EventSource::Stopped));
        assert!(matches!(action, EventSourceAction::Stop));
    }
    let (next, action) = EventSource::Stopped.step(EventSourceEvent::Header(header(1, 0)));
    assert!(matches!(next, EventSource::Stopped));
    assert!(matches!(action, EventSourceAction::Stop));
}

#[test]
fn the_joiner_pairs_a_header_with_its_events_under_the_headers_peer() {
    let header_peer = PeerId::random();
    let events_peer = PeerId::random();
    let mut events = EventsByTransaction::new();
    events.append(tx(1), event(10));
    let read = PeerData { peer: events_peer, data: BlockEvents { header: header(9, 1), events } };
    let lead = PeerData { peer: header_peer, data: signed(9, 1) };

    let (state, action) = BlockStream::Idle.step(BlockStreamEvent::Started);
    assert!(matches!(action, BlockStreamAction::NextHeader));
    let (state, action) = state.step(BlockStreamEvent::Header(Ok(lead)));
    assert_eq!(state, BlockStream::AwaitingEvents { header: lead });
    assert!(matches!(action, BlockStreamAction::NextEvents));
    let (state, action) = state.step(BlockStreamEvent::Events(Ok(read)));
    assert_eq!(state, BlockStream::Sending);
    match action {
        BlockStreamAction::Emit(Ok(block)) => {
            assert_eq!(block.peer, header_peer);
            assert_eq!(block.data.header, signed(9, 1));
            assert_eq!(block.data.events.get(&tx(1)), Some(&vec![event(10)]));
        }
        other => panic!("unexpected action {:?}", other),
    }
    let (state, action) = state.step(BlockStreamEvent::Delivered);
    assert_eq!(state, BlockStream::AwaitingHeader);
    assert!(matches!(action, BlockStreamAction::NextHeader));
    let (state, action) = state.step(BlockStreamEvent::HeadersClosed);
    assert_eq!(state, BlockStream::Stopped);
    assert!(matches!(action, BlockStreamAction::Stop));
}

#[test]
fn the_joiner_passes_a_failure_of_either_side_on() {
    let peer = PeerId::random();
    let failure = PeerData { peer, data: SyncError2::HeaderHashMismatch };
    let (state, action) = BlockStream::AwaitingHeader.step(BlockStreamEvent::Header(Err(failure)));
    assert_eq!(state, BlockStream::Failing);
    assert!(matches!(action, BlockStreamAction::Emit(Err(sent)) if sent == failure));
    let (state, action) = state.step(BlockStreamEvent::Delivered);
    assert_eq!(state, BlockStream::Stopped);
    assert!(matches!(action, BlockStreamAction::Stop));

    let lead = PeerData { peer: PeerId::random(), data: signed(9, 1) };
    let failure = PeerData { peer, data: SyncError2::CommitmentMismatch };
    let waiting = BlockStream::AwaitingEvents { header: lead };
    let (state, action) = waiting.step(BlockStreamEvent::Events(Err(failure)));
    assert_eq!(state, BlockStream::Failing);
    assert!(matches!(action, BlockStreamAction::Emit(Err(sent)) if sent == failure));

    let (state, action) = waiting.step(BlockStreamEvent::EventsClosed);
    assert_eq!(state, BlockStream::Stopped);
    assert!(matches!(action, BlockStreamAction::Stop));
}

#[test]
fn the_joiner_stops_when_its_receiver_is_gone() {
    let lead = PeerData { peer: PeerId::random(), data: signed(9, 1) };
    for state in [
        BlockStream::Idle,
        BlockStream::AwaitingHeader,
        BlockStream::AwaitingEvents { header: lead },
        BlockStream::Sending,
        BlockStream::Failing,
        BlockStream::Stopped,
    ] {
        let (next, action) = state.step(BlockStreamEvent::ReceiverGone);
        assert_eq!(next, BlockStream::Stopped);
        assert!(matches!(action, BlockStreamAction::Stop));
    }
    let (next, action) = BlockStream::Stopped.step(BlockStreamEvent::Header(Ok(lead)));
    assert_eq!(next, BlockStream::Stopped);
    assert!(matches!(action, BlockStreamAction::Stop));
}

#[test]
fn the_caller_returns_the_first_failure_or_success_at_the_end() {
    let peer = PeerId::random();
    let (state, action) = Completion::Idle.step(CompletionEvent::Started);
    assert_eq!((state, action), (Completion::Draining, CompletionAction::Receive));
    let stored = Ok(PeerData { peer, data: () });
    let (state, action) = state.step(CompletionEvent::Outcome(stored));
    assert_eq!((state, action), (Completion::Draining, CompletionAction::Receive));
    let (done, action) = state.step(CompletionEvent::Closed);
    assert_eq!((done, action), (Completion::Done, CompletionAction::Return(Ok(()))));

    let failure = PeerData { peer, data: SyncError2::TooManyEvents };
    let (done, action) = state.step(CompletionEvent::Outcome(Err(failure)));
    assert_eq!((done, action), (Completion::Done, CompletionAction::Return(Err(failure))));
}
