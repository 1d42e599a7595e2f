//! The pipeline as a whole: how its tasks are wired, what a run comes to,
//! and what holds of every run.

use std::collections::VecDeque;
use vstd::prelude::*;

use crate::block_stream::{
    block_stream_outputs, lemma_block_stream_ends_with_events_failure,
    lemma_block_stream_pairs_in_order, lemma_blocks_sent_were_joined, run_block_stream,
};
use crate::error::SyncError2;
use crate::event::{BlockData, BlockEvents};
use crate::event_source::{
    collects, event_source_outputs, lemma_collected_feeds_were_exact, lemma_exact_feeds_are_collected,
    lemma_miscount_ends_event_source, miscount, run_event_source, EventFeed,
};
use crate::fanout::{fanout_outputs, lemma_fanout_outputs_agree, run_fanout};
use crate::header::{BlockHeader, BlockNumber, SignedBlockHeader};
use crate::header_source::{
    header_source_outputs, run_header_source, served_headers, HeaderRequest, TipRound,
};
use crate::peer::PeerData;
use crate::store::{
    block_values, committed_blocks, lemma_ledger_holds_the_stored_blocks,
    lemma_store_without_faults_accepts, with_blocks, LedgerStore,
};
use crate::stream::{
    accepts, lemma_accepting_stage_sends_values, lemma_stage_ends_with_failure,
    lemma_values_sent_were_values_received, passes_on, run_stage, stage_outputs, stage_trace,
    ProcessStage, SyncResult,
};

verus! {

/// How many items the channel behind the header source, and the one
/// behind the event source, holds before the task has to wait. The sizes
/// of the channels tune a run; they change nothing of what it yields.
pub const SOURCE_BUFFER: usize = 1;

/// How many headers the channel behind each of the two header validators
/// holds.
pub const VALIDATION_BUFFER: usize = 100;

/// How many items each of the two channels behind the fanout holds.
pub const FANOUT_BUFFER: usize = 10;

/// How many items the channel behind the commitment validator holds.
pub const EVENT_BUFFER: usize = 10;

/// How many blocks the channel behind the block joiner holds.
pub const BLOCK_BUFFER: usize = 1;

/// How many outcomes the channel behind the store stage holds.
pub const STORE_BUFFER: usize = 10;

/// Where the caller of the pipeline stands while it drains the last
/// channel.
#[derive(Clone, Copy, Debug, PartialEq, Eq)]
pub enum Completion {
    /// Not started yet.
    Idle,
    /// Waiting for the next outcome of the store stage.
    Draining,
    /// The run is over.
    Done,
}

/// What happened since the last action.
#[derive(Clone, Copy, Debug, PartialEq, Eq)]
pub enum CompletionEvent {
    /// The pipeline was set up.
    Started,
    /// The store stage sent the outcome for one block.
    Outcome(SyncResult<()>),
    /// The last channel is closed and drained.
    Closed,
}

/// What the caller does next.
#[derive(Clone, Copy, Debug, PartialEq, Eq)]
pub enum CompletionAction {
    /// Wait for the next outcome.
    Receive,
    /// Drop the last channel and return.
    Return(Result<(), PeerData<SyncError2>>),
}

/// The step that the caller takes from `state` on `event`: it goes on
/// while blocks are stored, returns the first failure that arrives, and
/// returns success when the channel closes.
pub open spec fn completion_step(
    state: Completion,
    event: CompletionEvent,
    next: Completion,
    action: CompletionAction,
) -> bool {
    match (state, event) {
        (Completion::Idle, CompletionEvent::Started) => next is Draining && action is Receive,
        (Completion::Draining, CompletionEvent::Outcome(Ok(_))) => next is Draining
            && action is Receive,
        (Completion::Draining, CompletionEvent::Outcome(Err(failure))) => {
            &&& next is Done
            &&& action == CompletionAction::Return(Err(failure))
        },
        _ => next is Done && action == CompletionAction::Return(Ok(())),
    }
}

impl Completion {
    /// One step of the caller: from where it stands and what happened, to
    /// where it stands next and what it does.
    pub fn step(self, event: CompletionEvent) -> (next: (Completion, CompletionAction))
        ensures
            completion_step(self, event, next.0, next.1),
    {
        match (self, event) {
            (Completion::Idle, CompletionEvent::Started) => (
                Completion::Draining,
                CompletionAction::Receive,
            ),
            (Completion::Draining, CompletionEvent::Outcome(Ok(_))) => (
                Completion::Draining,
                CompletionAction::Receive,
            ),
            (Completion::Draining, CompletionEvent::Outcome(Err(failure))) => (
                Completion::Done,
                CompletionAction::Return(Err(failure)),
            ),
            _ => (Completion::Done, CompletionAction::Return(Ok(()))),
        }
    }
}

/// Whether `outcome` is what a run comes to whose store stage sends
/// `stored`: the first failure among them, and success where there is
/// none.
pub open spec fn concludes(stored: Seq<SyncResult<()>>, outcome: Result<(), PeerData<SyncError2>>) -> bool {
    match outcome {
        Ok(_) => forall|i: int| 0 <= i < stored.len() ==> (#[trigger] stored[i]) is Ok,
        Err(failure) => exists|i: int|
            {
                &&& 0 <= i < stored.len()
                &&& #[trigger] stored[i] == Err::<PeerData<()>, PeerData<SyncError2>>(failure)
                &&& forall|j: int| 0 <= j < i ==> (#[trigger] stored[j]) is Ok
            },
    }
}

/// Drains a closed channel that holds `stored` as the caller of the
/// pipeline does, and returns what the run comes to.
pub fn conclude(stored: VecDeque<SyncResult<()>>) -> (outcome: Result<(), PeerData<SyncError2>>)
    ensures
        concludes(stored@, outcome),
{
    let ghost all = stored@;
    let mut stored = stored;
    let mut state = Completion::Idle;
    let mut event = CompletionEvent::Started;
    let mut outcome: Result<(), PeerData<SyncError2>> = Ok(());
    loop
        invariant_except_break
            stored@.len() <= all.len(),
            stored@ == all.skip(all.len() - stored@.len()),
            ({
                let c = all.len() - stored@.len();
                match (state, event) {
                    (Completion::Idle, CompletionEvent::Started) => c == 0,
                    (Completion::Draining, CompletionEvent::Outcome(item)) => {
                        &&& c >= 1
                        &&& item == all[c - 1]
                        &&& forall|j: int| 0 <= j < c - 1 ==> (#[trigger] all[j]) is Ok
                    },
                    (Completion::Draining, CompletionEvent::Closed) => {
                        &&& c == all.len()
                        &&& forall|j: int| 0 <= j < c ==> (#[trigger] all[j]) is Ok
                    },
                    _ => false,
                }
            }),
        ensures
            concludes(all, outcome),
        decreases
                stored@.len() + if event is Closed {
                    0nat
                } else {
                    1nat
                },
    {
        let ghost c = all.len() - stored@.len();
        let (next, action) = state.step(event);
        state = next;
        match action {
            CompletionAction::Receive => {
                match stored.pop_front() {
                    Some(item) => {
                        event = CompletionEvent::Outcome(item);
                    },
                    None => {
                        event = CompletionEvent::Closed;
                    },
                }
            },
            CompletionAction::Return(returned) => {
                proof {
                    if returned is Err {
                        assert(all[c - 1] == Err::<PeerData<()>, PeerData<SyncError2>>(
                            returned->Err_0,
                        ));
                    }
                }
                outcome = returned;
                break ;
            },
        }
    }
    outcome
}

/// Everything that moved through the channels of one run, channel by
/// channel.
pub struct Trace<C, H, V, S> {
    /// What the header source asked of the network.
    pub requests: Seq<HeaderRequest>,
    /// What the header source sent.
    pub headers: Seq<SyncResult<SignedBlockHeader>>,
    /// What the continuity stage sent.
    pub continuous: Seq<SyncResult<SignedBlockHeader>>,
    /// What the hash stage sent.
    pub hashed: Seq<SyncResult<SignedBlockHeader>>,
    /// What the fanout sent to the block joiner.
    pub signed: Seq<SyncResult<SignedBlockHeader>>,
    /// What the fanout sent to the event source.
    pub plain: Seq<BlockHeader>,
    /// What the event source sent.
    pub events: Seq<SyncResult<BlockEvents>>,
    /// What the commitment stage sent.
    pub matched: Seq<SyncResult<BlockEvents>>,
    /// What the block joiner sent.
    pub blocks: Seq<SyncResult<BlockData>>,
    /// What the store stage sent.
    pub stored: Seq<SyncResult<()>>,
    /// The continuity stage as it was before each header and after the last.
    pub continuity: Seq<C>,
    /// The hash stage as it was before each header and after the last.
    pub verify_hash: Seq<H>,
    /// The commitment stage as it was before each block's events and after
    /// the last.
    pub verify_commitment: Seq<V>,
    /// The store stage as it was before each block and after the last.
    pub store: Seq<S>,
}

/// Whether `trace` is a run of the pipeline from block `next` in which
/// `rounds` is what the chain and the network did for the header source,
/// and `feeds` what the network served to the event source: every task is
/// fed by the task before it, as the pipeline is wired.
pub open spec fn wired<
    C: ProcessStage<Input = SignedBlockHeader, Output = SignedBlockHeader>,
    H: ProcessStage<Input = SignedBlockHeader, Output = SignedBlockHeader>,
    V: ProcessStage<Input = BlockEvents, Output = BlockEvents>,
    S: ProcessStage<Input = BlockData, Output = ()>,
>(
    next: u64,
    rounds: Seq<TipRound>,
    feeds: Seq<EventFeed>,
    trace: Trace<C, H, V, S>,
) -> bool {
    &&& header_source_outputs(next, rounds, trace.requests, trace.headers)
    &&& stage_outputs(trace.headers, trace.continuous)
    &&& stage_trace(trace.continuity, trace.headers, trace.continuous)
    &&& stage_outputs(trace.continuous, trace.hashed)
    &&& stage_trace(trace.verify_hash, trace.continuous, trace.hashed)
    &&& fanout_outputs(trace.hashed, trace.signed, trace.plain)
    &&& event_source_outputs(trace.plain, feeds, trace.events)
    &&& stage_outputs(trace.events, trace.matched)
    &&& stage_trace(trace.verify_commitment, trace.events, trace.matched)
    &&& block_stream_outputs(trace.signed, trace.matched, trace.blocks)
    &&& stage_outputs(trace.blocks, trace.stored)
    &&& stage_trace(trace.store, trace.blocks, trace.stored)
}

/// Whether no validating stage of the run rejected anything that it
/// received.
pub open spec fn validators_accepted<C, H, V, S>(trace: Trace<C, H, V, S>) -> bool {
    &&& accepts(trace.headers, trace.continuous)
    &&& accepts(trace.continuous, trace.hashed)
    &&& accepts(trace.events, trace.matched)
}

/// Whether no stage of the run rejected anything that it received.
pub open spec fn nothing_rejected<C, H, V, S>(trace: Trace<C, H, V, S>) -> bool {
    &&& validators_accepted(trace)
    &&& accepts(trace.blocks, trace.stored)
}

/// In a run in which no stage rejects anything, every header that the
/// network served reaches the fanout, and so both of its channels.
proof fn lemma_accepted_headers_reach_both_sides<
    C: ProcessStage<Input = SignedBlockHeader, Output = SignedBlockHeader>,
    H: ProcessStage<Input = SignedBlockHeader, Output = SignedBlockHeader>,
    V: ProcessStage<Input = BlockEvents, Output = BlockEvents>,
    S: ProcessStage<Input = BlockData, Output = ()>,
>(
    next: u64,
    rounds: Seq<TipRound>,
    feeds: Seq<EventFeed>,
    trace: Trace<C, H, V, S>,
)
    requires
        wired(next, rounds, feeds, trace),
        nothing_rejected(trace),
    ensures
        trace.signed.len() == served_headers(rounds).len(),
        trace.plain.len() == served_headers(rounds).len(),
        forall|i: int| 0 <= i < trace.signed.len() ==> (#[trigger] trace.signed[i]) is Ok,
{
    let served = served_headers(rounds).len() as int;
    lemma_accepting_stage_sends_values(trace.headers, trace.continuous, served);
    lemma_accepting_stage_sends_values(trace.continuous, trace.hashed, served);
    lemma_fanout_outputs_agree(trace.hashed, trace.signed, trace.plain);
}

/// A run in which no stage rejects anything, and in which the network
/// serves for every block as many events as its header declares, stores
/// one block for each header that the network served, and comes to
/// success.
pub proof fn lemma_accepted_run_stores_every_block<
    C: ProcessStage<Input = SignedBlockHeader, Output = SignedBlockHeader>,
    H: ProcessStage<Input = SignedBlockHeader, Output = SignedBlockHeader>,
    V: ProcessStage<Input = BlockEvents, Output = BlockEvents>,
    S: ProcessStage<Input = BlockData, Output = ()>,
>(
    next: u64,
    rounds: Seq<TipRound>,
    feeds: Seq<EventFeed>,
    trace: Trace<C, H, V, S>,
    outcome: Result<(), PeerData<SyncError2>>,
)
    requires
        wired(next, rounds, feeds, trace),
        concludes(trace.stored, outcome),
        nothing_rejected(trace),
        trace.plain.len() <= feeds.len(),
        forall|i: int|
            0 <= i < trace.plain.len() ==> (#[trigger] feeds[i]).events@.len()
                == trace.plain[i].event_count,
    ensures
        outcome is Ok,
        trace.stored.len() == served_headers(rounds).len(),
        forall|i: int| 0 <= i < trace.stored.len() ==> (#[trigger] trace.stored[i]) is Ok,
{
    let served = served_headers(rounds).len() as int;
    lemma_accepted_headers_reach_both_sides(next, rounds, feeds, trace);
    lemma_exact_feeds_are_collected(trace.plain, feeds, trace.events, served);
    lemma_accepting_stage_sends_values(trace.events, trace.matched, served);
    lemma_block_stream_pairs_in_order(trace.signed, trace.matched, trace.blocks);
    lemma_accepting_stage_sends_values(trace.blocks, trace.stored, served);
    if outcome is Err {
        let i = choose|i: int|
            0 <= i < trace.stored.len() && #[trigger] trace.stored[i] == Err::<
                PeerData<()>,
                PeerData<SyncError2>,
            >(outcome->Err_0);
        assert(trace.stored[i] is Ok);
    }
}

/// A run over a ledger for whose store no fault is planned, in which no
/// validating stage rejects anything and the network serves for every
/// block as many events as its header declares, comes to success, and the
/// ledger then holds what it held before and one block for each header
/// that the network served.
pub proof fn lemma_clean_run_commits_every_block<
    C: ProcessStage<Input = SignedBlockHeader, Output = SignedBlockHeader>,
    H: ProcessStage<Input = SignedBlockHeader, Output = SignedBlockHeader>,
    V: ProcessStage<Input = BlockEvents, Output = BlockEvents>,
>(
    next: u64,
    rounds: Seq<TipRound>,
    feeds: Seq<EventFeed>,
    trace: Trace<C, H, V, LedgerStore>,
    outcome: Result<(), PeerData<SyncError2>>,
)
    requires
        wired(next, rounds, feeds, trace),
        concludes(trace.stored, outcome),
        validators_accepted(trace),
        trace.plain.len() <= feeds.len(),
        forall|i: int|
            0 <= i < trace.plain.len() ==> (#[trigger] feeds[i]).events@.len()
                == trace.plain[i].event_count,
        trace.store[0].faults@.len() == 0,
        !trace.store[0].ledger.in_transaction(),
    ensures
        outcome is Ok,
        trace.blocks.len() == served_headers(rounds).len(),
        forall|i: int| 0 <= i < trace.blocks.len() ==> (#[trigger] trace.blocks[i]) is Ok,
        trace.store.last().ledger.committed() == with_blocks(
            trace.store[0].ledger.committed(),
            block_values(trace.blocks),
        ),
{
    lemma_store_without_faults_accepts(trace.store, trace.blocks, trace.stored);
    lemma_accepted_run_stores_every_block(next, rounds, feeds, trace, outcome);
    lemma_values_sent_were_values_received(trace.blocks, trace.stored);
    lemma_ledger_holds_the_stored_blocks(trace.store, trace.blocks, trace.stored);
    if trace.stored.len() > 0 {
        assert(trace.stored[trace.stored.len() - 1] is Ok);
    }
    assert(committed_blocks(trace.blocks, trace.stored) =~= block_values(trace.blocks));
}

/// A run that comes to success, with a feed at hand for every header that
/// the network served, has stored one block for each of those headers, and
/// every feed held as many events as the header declared that it was read
/// for.
pub proof fn lemma_successful_run_stored_every_block<
    C: ProcessStage<Input = SignedBlockHeader, Output = SignedBlockHeader>,
    H: ProcessStage<Input = SignedBlockHeader, Output = SignedBlockHeader>,
    V: ProcessStage<Input = BlockEvents, Output = BlockEvents>,
    S: ProcessStage<Input = BlockData, Output = ()>,
>(
    next: u64,
    rounds: Seq<TipRound>,
    feeds: Seq<EventFeed>,
    trace: Trace<C, H, V, S>,
    outcome: Result<(), PeerData<SyncError2>>,
)
    requires
        wired(next, rounds, feeds, trace),
        concludes(trace.stored, outcome),
        outcome is Ok,
        served_headers(rounds).len() <= feeds.len(),
    ensures
        trace.stored.len() == served_headers(rounds).len(),
        trace.plain.len() == served_headers(rounds).len(),
        forall|i: int|
            0 <= i < trace.plain.len() ==> (#[trigger] feeds[i]).events@.len()
                == trace.plain[i].event_count,
{
    lemma_values_sent_were_values_received(trace.blocks, trace.stored);
    lemma_blocks_sent_were_joined(trace.signed, trace.matched, trace.blocks);
    let joined = trace.blocks.len() as int;
    if joined < trace.signed.len() {
        // The events would have ended though no failure was sent, which only
        // happens where the feeds run out.
        lemma_values_sent_were_values_received(trace.events, trace.matched);
        lemma_collected_feeds_were_exact(trace.plain, feeds, trace.events);
        assert(trace.signed[joined] is Ok);
        assert(trace.plain.len() > joined);
    }
    if trace.signed.len() > 0 {
        assert(trace.signed[trace.signed.len() - 1] is Ok);
    }
    assert forall|i: int| 0 <= i < trace.hashed.len() implies (#[trigger] trace.hashed[i]) is Ok by {
        assert(trace.signed[i] == trace.hashed[i]);
    }
    lemma_values_sent_were_values_received(trace.continuous, trace.hashed);
    lemma_values_sent_were_values_received(trace.headers, trace.continuous);
    lemma_matched_prefix_was_exact(feeds, trace, joined);
}

/// The blocks that were joined had their events read in full: the feed of
/// each held as many events as its header declared.
proof fn lemma_matched_prefix_was_exact<C, H, V, S>(feeds: Seq<EventFeed>, trace: Trace<C, H, V, S>, joined: int)
    requires
        event_source_outputs(trace.plain, feeds, trace.events),
        stage_outputs(trace.events, trace.matched),
        0 <= joined <= trace.matched.len(),
        joined <= trace.plain.len(),
        forall|i: int| 0 <= i < joined ==> (#[trigger] trace.matched[i]) is Ok,
    ensures
        forall|i: int|
            0 <= i < joined ==> (#[trigger] feeds[i]).events@.len() == trace.plain[i].event_count,
{
    assert forall|i: int| 0 <= i < joined implies (#[trigger] feeds[i]).events@.len()
        == trace.plain[i].event_count by {
        assert(trace.matched[i] is Ok);
        assert(passes_on(trace.events[i], trace.matched[i]));
        assert(collects(trace.plain[i], feeds[i].peer, feeds[i].events@, trace.events[i]));
    }
}

/// In a run in which no stage rejects anything, the first block for which
/// the network serves fewer or more events than the header declares ends
/// the run: it comes to that failure, too few or too many events,
/// attributed to the peer that served them. The blocks before it are
/// stored, and neither that block nor a later one reaches the store stage.
pub proof fn lemma_miscounted_events_fail_the_run<
    C: ProcessStage<Input = SignedBlockHeader, Output = SignedBlockHeader>,
    H: ProcessStage<Input = SignedBlockHeader, Output = SignedBlockHeader>,
    V: ProcessStage<Input = BlockEvents, Output = BlockEvents>,
    S: ProcessStage<Input = BlockData, Output = ()>,
>(
    next: u64,
    rounds: Seq<TipRound>,
    feeds: Seq<EventFeed>,
    trace: Trace<C, H, V, S>,
    outcome: Result<(), PeerData<SyncError2>>,
    at: int,
)
    requires
        wired(next, rounds, feeds, trace),
        concludes(trace.stored, outcome),
        nothing_rejected(trace),
        0 <= at < trace.plain.len(),
        at < feeds.len(),
        forall|i: int|
            0 <= i < at ==> (#[trigger] feeds[i]).events@.len() == trace.plain[i].event_count,
        feeds[at].events@.len() != trace.plain[at].event_count,
    ensures
        outcome == Err::<(), PeerData<SyncError2>>(
            PeerData {
                peer: feeds[at].peer,
                data: miscount(trace.plain[at].event_count, feeds[at].events@.len()),
            },
        ),
        trace.blocks.len() == at + 1,
        forall|i: int| 0 <= i < at ==> (#[trigger] trace.blocks[i]) is Ok,
        trace.blocks[at] is Err,
        trace.stored.len() == at + 1,
        forall|i: int| 0 <= i < at ==> (#[trigger] trace.stored[i]) is Ok,
{
    let failure = PeerData {
        peer: feeds[at].peer,
        data: miscount(trace.plain[at].event_count, feeds[at].events@.len()),
    };
    lemma_accepted_headers_reach_both_sides(next, rounds, feeds, trace);
    lemma_miscount_ends_event_source(trace.plain, feeds, trace.events, at);
    lemma_stage_ends_with_failure(trace.events, trace.matched, at);
    lemma_block_stream_ends_with_events_failure(trace.signed, trace.matched, trace.blocks, at);
    lemma_stage_ends_with_failure(trace.blocks, trace.stored, at);
    assert(trace.stored[at] == Err::<PeerData<()>, PeerData<SyncError2>>(failure));
    match outcome {
        Ok(_) => {
            assert(trace.stored[at] is Ok);
        },
        Err(reported) => {
            let i = choose|i: int|
                {
                    &&& 0 <= i < trace.stored.len()
                    &&& #[trigger] trace.stored[i] == Err::<PeerData<()>, PeerData<SyncError2>>(
                        reported,
                    )
                    &&& forall|j: int| 0 <= j < i ==> (#[trigger] trace.stored[j]) is Ok
                };
            if i < at {
                assert(trace.stored[i] is Ok);
            }
        },
    }
}

/// The pipeline over a recorded session: what the chain and the network
/// did, and the stages that validate and store.
pub struct Sync<C, H, V, S> {
    /// The tips that were observed, each with the headers then served.
    pub rounds: VecDeque<TipRound>,
    /// What the network served for the events of each block in turn.
    pub feeds: VecDeque<EventFeed>,
    /// Checks that each header continues the chain.
    pub continuity: C,
    /// Checks each header's hash.
    pub verify_hash: H,
    /// Checks each block's events against the header's commitment.
    pub verify_commitment: V,
    /// Persists each block.
    pub store: S,
}

impl<C, H, V, S> Sync<C, H, V, S> where
    C: ProcessStage<Input = SignedBlockHeader, Output = SignedBlockHeader>,
    H: ProcessStage<Input = SignedBlockHeader, Output = SignedBlockHeader>,
    V: ProcessStage<Input = BlockEvents, Output = BlockEvents>,
    S: ProcessStage<Input = BlockData, Output = ()>,
 {
    /// Runs the pipeline from block `next` until every task has ended, with
    /// channels that never fill, and returns what the run comes to together
    /// with the store stage as the run left it: header source, continuity,
    /// hash, fanout, then event source and commitment on the one side and
    /// the signed headers on the other, block joiner, store.
    pub fn run(self, next: BlockNumber) -> (done: (Result<(), PeerData<SyncError2>>, S))
        ensures
            exists|trace: Trace<C, H, V, S>|
                {
                    &&& #[trigger] wired(next@, self.rounds@, self.feeds@, trace)
                    &&& concludes(trace.stored, done.0)
                    &&& trace.store[0] == self.store
                    &&& trace.store.last() == done.1
                },
    {
        let Sync { rounds, feeds, continuity, verify_hash, verify_commitment, store } = self;
        let mut continuity = continuity;
        let mut verify_hash = verify_hash;
        let mut verify_commitment = verify_commitment;
        let mut store = store;
        let (requests, headers) = run_header_source(next, rounds);
        let ghost sent = headers@;
        let continuous = run_stage(&mut continuity, headers);
        let ghost checked = continuous@;
        let ghost continuity_states = choose|states: Seq<C>|
            {
                &&& #[trigger] stage_trace(states, sent, checked)
                &&& states[0] == self.continuity
            };
        let hashed = run_stage(&mut verify_hash, continuous);
        let ghost verified = hashed@;
        let ghost hash_states = choose|states: Seq<H>|
            {
                &&& #[trigger] stage_trace(states, checked, verified)
                &&& states[0] == self.verify_hash
            };
        let (signed, plain) = run_fanout(hashed);
        let ghost declared = plain@;
        let events = run_event_source(plain, feeds);
        let ghost read = events@;
        let matched = run_stage(&mut verify_commitment, events);
        let ghost lead = signed@;
        let ghost paired = matched@;
        let ghost commitment_states = choose|states: Seq<V>|
            {
                &&& #[trigger] stage_trace(states, read, paired)
                &&& states[0] == self.verify_commitment
            };
        let blocks = run_block_stream(signed, matched);
        let ghost joined = blocks@;
        let stored = run_stage(&mut store, blocks);
        let ghost store_states = choose|states: Seq<S>|
            {
                &&& #[trigger] stage_trace(states, joined, stored@)
                &&& states[0] == self.store
                &&& states.last() == store
            };
        let ghost trace = Trace {
            requests: requests@,
            headers: sent,
            continuous: checked,
            hashed: verified,
            signed: lead,
            plain: declared,
            events: read,
            matched: paired,
            blocks: joined,
            stored: stored@,
            continuity: continuity_states,
            verify_hash: hash_states,
            verify_commitment: commitment_states,
            store: store_states,
        };
        let outcome = conclude(stored);
        proof {
            assert(wired(next@, self.rounds@, self.feeds@, trace));
        }
        (outcome, store)
    }
}

} // verus!
