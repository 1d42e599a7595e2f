//! The store stage: the steps by which one block is persisted, a
//! persistence layer in memory, and what a run over it commits.

use std::collections::{HashMap, VecDeque};
use vstd::prelude::*;

use crate::error::SyncError2;
use crate::event::BlockData;
use crate::stream::{
    accepts, lemma_accepting_stage_sends_values, outcome_of, passes_on, stage_outputs,
    stage_trace, ProcessStage, SyncResult,
};

verus! {

broadcast use vstd::std_specs::hash::group_hash_axioms;

/// Where the storing of one block stands. The persistence layer is driven
/// from outside: each action is carried out there, and how it went comes
/// back as the next event.
#[derive(Debug)]
pub enum StoreBlock {
    /// Waiting for the next block.
    Ready,
    /// Waiting for a transaction to open, in which `block` will be written.
    Opening { block: BlockData },
    /// Waiting for the block's writes.
    Writing,
    /// Waiting for the transaction's commit.
    Committing,
    /// Waiting for the transaction to be rolled back after a failed write.
    RollingBack,
}

/// What happened since the last action.
#[derive(Debug)]
pub enum StoreEvent {
    /// A block arrived to be stored.
    Block(BlockData),
    /// The persistence layer did what was asked.
    Succeeded,
    /// The persistence layer could not do what was asked.
    Failed,
}

/// What is to be done next.
#[derive(Debug)]
pub enum StoreAction {
    /// Open a transaction.
    Begin,
    /// Write the block's header and events in the open transaction.
    Write(BlockData),
    /// Commit the open transaction.
    Commit,
    /// Roll the open transaction back.
    Rollback,
    /// Hand the outcome for the block to the pipeline.
    Finish(Result<(), SyncError2>),
}

/// The step that is taken from `state` on `event`. Whatever fails, the
/// outcome is a connection failure; only a commit that succeeds makes it a
/// success.
pub open spec fn store_step(
    state: StoreBlock,
    event: StoreEvent,
    next: StoreBlock,
    action: StoreAction,
) -> bool {
    match (state, event) {
        (StoreBlock::Ready, StoreEvent::Block(block)) => {
            &&& next == (StoreBlock::Opening { block })
            &&& action is Begin
        },
        (StoreBlock::Opening { block }, StoreEvent::Succeeded) => {
            &&& next is Writing
            &&& action == StoreAction::Write(block)
        },
        (StoreBlock::Writing, StoreEvent::Succeeded) => next is Committing && action is Commit,
        (StoreBlock::Writing, StoreEvent::Failed) => next is RollingBack && action is Rollback,
        (StoreBlock::Committing, StoreEvent::Succeeded) => {
            &&& next is Ready
            &&& action == StoreAction::Finish(Ok(()))
        },
        _ => {
            &&& next is Ready
            &&& action == StoreAction::Finish(Err(SyncError2::ConnectionFailure))
        },
    }
}

impl StoreBlock {
    /// The state in which a block can be handed in.
    pub fn new() -> (state: StoreBlock)
        ensures
            state is Ready,
    {
        StoreBlock::Ready
    }

    /// One step in the storing of a block: from where it stands and what
    /// happened, to where it stands next and what is to be done.
    pub fn step(self, event: StoreEvent) -> (next: (StoreBlock, StoreAction))
        ensures
            store_step(self, event, next.0, next.1),
    {
        match (self, event) {
            (StoreBlock::Ready, StoreEvent::Block(block)) => (
                StoreBlock::Opening { block },
                StoreAction::Begin,
            ),
            (StoreBlock::Opening { block }, StoreEvent::Succeeded) => (
                StoreBlock::Writing,
                StoreAction::Write(block),
            ),
            (StoreBlock::Writing, StoreEvent::Succeeded) => (
                StoreBlock::Committing,
                StoreAction::Commit,
            ),
            (StoreBlock::Writing, StoreEvent::Failed) => (
                StoreBlock::RollingBack,
                StoreAction::Rollback,
            ),
            (StoreBlock::Committing, StoreEvent::Succeeded) => (
                StoreBlock::Ready,
                StoreAction::Finish(Ok(())),
            ),
            _ => (StoreBlock::Ready, StoreAction::Finish(Err(SyncError2::ConnectionFailure))),
        }
    }
}

/// The number under which `block` is stored.
pub open spec fn number_of(block: BlockData) -> u64 {
    block.header.header.number@
}

/// `committed` after each of `blocks` was stored in turn, every block
/// under its number: a later block replaces an earlier one of the same
/// number.
pub open spec fn with_blocks(committed: Map<u64, BlockData>, blocks: Seq<BlockData>) -> Map<
    u64,
    BlockData,
>
    decreases blocks.len(),
{
    if blocks.len() == 0 {
        committed
    } else {
        with_blocks(committed, blocks.drop_last()).insert(number_of(blocks.last()), blocks.last())
    }
}

/// What `with_blocks` holds under `number`: the last of `blocks` with that
/// number, and what was committed before where there is none.
pub proof fn lemma_with_blocks_holds(
    committed: Map<u64, BlockData>,
    blocks: Seq<BlockData>,
    number: u64,
)
    ensures
        (forall|i: int| 0 <= i < blocks.len() ==> number_of(#[trigger] blocks[i]) != number) ==> {
            &&& with_blocks(committed, blocks).contains_key(number) == committed.contains_key(
                number,
            )
            &&& with_blocks(committed, blocks)[number] == committed[number]
        },
        forall|i: int|
            0 <= i < blocks.len() && number_of(#[trigger] blocks[i]) == number && (forall|j: int|
                i < j < blocks.len() ==> number_of(#[trigger] blocks[j]) != number) ==> {
                &&& with_blocks(committed, blocks).contains_key(number)
                &&& with_blocks(committed, blocks)[number] == blocks[i]
            },
    decreases blocks.len(),
{
    if blocks.len() > 0 {
        let front = blocks.drop_last();
        lemma_with_blocks_holds(committed, front, number);
        assert forall|i: int|
            0 <= i < blocks.len() && number_of(#[trigger] blocks[i]) == number && (forall|j: int|
                i < j < blocks.len() ==> number_of(#[trigger] blocks[j])
                    != number) implies with_blocks(committed, blocks).contains_key(number)
            && with_blocks(committed, blocks)[number] == blocks[i] by {
            if i < blocks.len() - 1 {
                assert(front[i] == blocks[i]);
                assert(number_of(blocks[blocks.len() - 1]) != number);
                assert forall|j: int| i < j < front.len() implies number_of(#[trigger] front[j])
                    != number by {
                    assert(front[j] == blocks[j]);
                }
            }
        }
        if forall|i: int| 0 <= i < blocks.len() ==> number_of(#[trigger] blocks[i]) != number {
            assert(number_of(blocks[blocks.len() - 1]) != number);
            assert forall|i: int| 0 <= i < front.len() implies number_of(#[trigger] front[i])
                != number by {
                assert(front[i] == blocks[i]);
            }
        }
    }
}

/// A run that stored the first `done` of `blocks` and then failed can be
/// made again from the same start: what is committed after the second run
/// is what one run without the failure would have committed.
pub proof fn lemma_storing_again_changes_nothing(
    committed: Map<u64, BlockData>,
    blocks: Seq<BlockData>,
    done: int,
)
    requires
        0 <= done <= blocks.len(),
    ensures
        with_blocks(with_blocks(committed, blocks.take(done)), blocks) == with_blocks(
            committed,
            blocks,
        ),
    decreases blocks.len(),
{
    let partly = with_blocks(committed, blocks.take(done));
    if blocks.len() == 0 {
        assert(blocks.take(done) =~= blocks);
    } else if done == blocks.len() {
        assert(blocks.take(done) =~= blocks);
        let front = blocks.drop_last();
        lemma_storing_again_changes_nothing(committed, front, front.len() as int);
        assert(front.take(front.len() as int) =~= front);
        // Storing the front over the whole: the last block is stored once more
        // at the end, and before that the front is stored over a ledger that
        // holds the front and the last block already.
        lemma_insert_then_blocks(with_blocks(committed, front), front, blocks.last());
        assert(with_blocks(with_blocks(committed, blocks), blocks) =~= with_blocks(
            committed,
            blocks,
        ));
    } else {
        let front = blocks.drop_last();
        assert(front.take(done) =~= blocks.take(done));
        lemma_storing_again_changes_nothing(committed, front, done);
    }
}

/// Storing `last` before `blocks` and once more after them commits what
/// storing it after them alone commits.
proof fn lemma_insert_then_blocks(committed: Map<u64, BlockData>, blocks: Seq<BlockData>, last: BlockData)
    ensures
        with_blocks(committed.insert(number_of(last), last), blocks).insert(
            number_of(last),
            last,
        ) == with_blocks(committed, blocks).insert(number_of(last), last),
    decreases blocks.len(),
{
    if blocks.len() > 0 {
        lemma_insert_then_blocks(committed, blocks.drop_last(), last);
        let before = with_blocks(committed.insert(number_of(last), last), blocks.drop_last());
        let plain = with_blocks(committed, blocks.drop_last());
        let key = number_of(blocks.last());
        assert(before.insert(key, blocks.last()).insert(number_of(last), last) =~= before.insert(
            number_of(last),
            last,
        ).insert(key, blocks.last()).insert(number_of(last), last));
        assert(plain.insert(key, blocks.last()).insert(number_of(last), last) =~= plain.insert(
            number_of(last),
            last,
        ).insert(key, blocks.last()).insert(number_of(last), last));
    }
    assert(with_blocks(committed.insert(number_of(last), last), blocks).insert(
        number_of(last),
        last,
    ) =~= with_blocks(committed, blocks).insert(number_of(last), last));
}

/// A persistence layer in memory: the committed blocks by number, and one
/// transaction at most, whose writes show only once it is committed.
#[derive(Debug)]
pub struct Ledger {
    blocks: HashMap<u64, BlockData>,
    staged: VecDeque<BlockData>,
    open: bool,
}

impl Ledger {
    /// The committed blocks by number.
    pub closed spec fn committed(&self) -> Map<u64, BlockData> {
        self.blocks@
    }

    /// What the open transaction has written so far, in order.
    pub closed spec fn staged(&self) -> Seq<BlockData> {
        self.staged@
    }

    /// Whether a transaction is open.
    pub closed spec fn in_transaction(&self) -> bool {
        self.open
    }

    /// A ledger that holds nothing.
    pub fn new() -> (ledger: Ledger)
        ensures
            ledger.committed() == Map::<u64, BlockData>::empty(),
            !ledger.in_transaction(),
    {
        Ledger { blocks: HashMap::new(), staged: VecDeque::new(), open: false }
    }

    /// Opens a transaction, unless one is open: then nothing changes.
    pub fn begin(&mut self) -> (opened: bool)
        ensures
            opened == !old(self).in_transaction(),
            final(self).in_transaction(),
            final(self).committed() == old(self).committed(),
            opened ==> final(self).staged() == Seq::<BlockData>::empty(),
            !opened ==> final(self).staged() == old(self).staged(),
    {
        if self.open {
            false
        } else {
            self.staged.clear();
            self.open = true;
            true
        }
    }

    /// Writes `block` in the open transaction; without one nothing changes.
    pub fn write(&mut self, block: BlockData) -> (written: bool)
        ensures
            written == old(self).in_transaction(),
            final(self).in_transaction() == old(self).in_transaction(),
            final(self).committed() == old(self).committed(),
            final(self).staged() == if written {
                old(self).staged().push(block)
            } else {
                old(self).staged()
            },
    {
        if self.open {
            self.staged.push_back(block);
            true
        } else {
            false
        }
    }

    /// Commits the open transaction: all its writes show at once. Without
    /// one nothing changes.
    pub fn commit(&mut self) -> (committed: bool)
        ensures
            committed == old(self).in_transaction(),
            !final(self).in_transaction(),
            final(self).committed() == if committed {
                with_blocks(old(self).committed(), old(self).staged())
            } else {
                old(self).committed()
            },
            committed ==> final(self).staged() == Seq::<BlockData>::empty(),
    {
        if !self.open {
            return false;
        }
        let ghost writes = self.staged@;
        let ghost before = self.blocks@;
        while self.staged.len() > 0
            invariant
                self.open,
                self.staged@.len() <= writes.len(),
                self.staged@ == writes.skip(writes.len() - self.staged@.len()),
                self.blocks@ == with_blocks(before, writes.take(writes.len() - self.staged@.len())),
            decreases self.staged@.len(),
        {
            let ghost done = writes.len() - self.staged@.len();
            let block = self.staged.pop_front().unwrap();
            proof {
                assert(block == writes[done]);
                assert(writes.take(done + 1).drop_last() =~= writes.take(done));
                assert(writes.take(done + 1).last() == writes[done]);
            }
            let number = block.header.header.number.get();
            self.blocks.insert(number, block);
        }
        proof {
            assert(writes.take(writes.len() as int) =~= writes);
            assert(self.staged@ =~= Seq::<BlockData>::empty());
        }
        self.open = false;
        true
    }

    /// Drops the open transaction and what it wrote.
    pub fn rollback(&mut self)
        ensures
            !final(self).in_transaction(),
            final(self).committed() == old(self).committed(),
            final(self).staged() == Seq::<BlockData>::empty(),
    {
        self.staged.clear();
        self.open = false;
    }

    /// The committed block of that number, if there is one.
    pub fn get(&self, number: u64) -> (block: Option<&BlockData>)
        ensures
            block is Some <==> self.committed().contains_key(number),
            block is Some ==> *block->Some_0 == self.committed()[number],
    {
        self.blocks.get(&number)
    }

    /// How many blocks are committed.
    pub fn len(&self) -> (count: usize)
        ensures
            count == self.committed().len(),
    {
        self.blocks.len()
    }
}

/// What goes wrong, in a simulation, while one block is stored.
#[derive(Clone, Copy, Debug, PartialEq, Eq, Structural)]
pub enum StoreFault {
    /// Nothing.
    NoFault,
    /// No transaction can be opened.
    OpenFails,
    /// The block's writes fail.
    WriteFails,
    /// The commit fails, and the transaction is lost.
    CommitFails,
}

/// The stage that stores blocks in a [`Ledger`], with the faults that a
/// simulation plans: the first of `faults` strikes the next block, and a
/// block for which none is left is stored without a fault.
#[derive(Debug)]
pub struct LedgerStore {
    pub ledger: Ledger,
    pub faults: VecDeque<StoreFault>,
}

/// The fault that strikes the next block.
pub open spec fn next_fault(faults: Seq<StoreFault>) -> StoreFault {
    if faults.len() > 0 {
        faults[0]
    } else {
        StoreFault::NoFault
    }
}

/// The faults that are left once the next block has been stored.
pub open spec fn later_faults(faults: Seq<StoreFault>) -> Seq<StoreFault> {
    if faults.len() > 0 {
        faults.skip(1)
    } else {
        faults
    }
}

spec fn weight(state: StoreBlock) -> nat {
    match state {
        StoreBlock::Ready => 4,
        StoreBlock::Opening { .. } => 3,
        StoreBlock::Writing => 2,
        _ => 1,
    }
}

impl LedgerStore {
    /// A store over an empty ledger, with the planned faults.
    pub fn new(faults: VecDeque<StoreFault>) -> (store: LedgerStore)
        ensures
            store.faults == faults,
            store.ledger.committed() == Map::<u64, BlockData>::empty(),
            !store.ledger.in_transaction(),
    {
        LedgerStore { ledger: Ledger::new(), faults }
    }

    /// Stores `block` in a transaction of its own. Without a fault the
    /// block is committed under its number. With one, or where a transaction
    /// was left open, the outcome is a connection failure and what is
    /// committed stays as it was.
    pub fn store(&mut self, block: BlockData) -> (outcome: Result<(), SyncError2>)
        ensures
            stores(*old(self), block, *final(self), outcome),
    {
        let fault = match self.faults.pop_front() {
            Some(fault) => fault,
            None => StoreFault::NoFault,
        };
        proof {
            assert(self.faults@ =~= later_faults(old(self).faults@));
        }
        let ghost before = old(self).ledger.committed();
        let ghost was_open = old(self).ledger.in_transaction();
        let mut state = StoreBlock::new();
        let mut event = StoreEvent::Block(block);
        loop
            invariant
                self.faults@ == later_faults(old(self).faults@),
                fault == next_fault(old(self).faults@),
                before == old(self).ledger.committed(),
                was_open == old(self).ledger.in_transaction(),
                match (state, event) {
                    (StoreBlock::Ready, StoreEvent::Block(first)) => {
                        &&& first == block
                        &&& self.ledger.committed() == before
                        &&& self.ledger.in_transaction() == was_open
                    },
                    (StoreBlock::Opening { block: held }, StoreEvent::Succeeded) => {
                        &&& held == block
                        &&& self.ledger.committed() == before
                        &&& self.ledger.in_transaction()
                        &&& self.ledger.staged() == Seq::<BlockData>::empty()
                        &&& !was_open
                        &&& fault != StoreFault::OpenFails
                    },
                    (StoreBlock::Opening { block: held }, StoreEvent::Failed) => {
                        &&& self.ledger.committed() == before
                        &&& self.ledger.in_transaction() == was_open
                        &&& (was_open || fault == StoreFault::OpenFails)
                    },
                    (StoreBlock::Writing, StoreEvent::Succeeded) => {
                        &&& self.ledger.committed() == before
                        &&& self.ledger.in_transaction()
                        &&& self.ledger.staged() == seq![block]
                        &&& !was_open
                        &&& (fault == StoreFault::NoFault || fault == StoreFault::CommitFails)
                    },
                    (StoreBlock::Writing, StoreEvent::Failed) => {
                        &&& self.ledger.committed() == before
                        &&& !was_open
                        &&& fault == StoreFault::WriteFails
                    },
                    (StoreBlock::Committing, StoreEvent::Succeeded) => {
                        &&& self.ledger.committed() == before.insert(number_of(block), block)
                        &&& !self.ledger.in_transaction()
                        &&& !was_open
                        &&& fault == StoreFault::NoFault
                    },
                    (StoreBlock::Committing, StoreEvent::Failed) => {
                        &&& self.ledger.committed() == before
                        &&& !self.ledger.in_transaction()
                        &&& !was_open
                        &&& fault == StoreFault::CommitFails
                    },
                    (StoreBlock::RollingBack, StoreEvent::Succeeded) => {
                        &&& self.ledger.committed() == before
                        &&& !self.ledger.in_transaction()
                        &&& !was_open
                        &&& fault == StoreFault::WriteFails
                    },
                    _ => false,
                },
            decreases weight(state),
        {
            let (next, action) = state.step(event);
            state = next;
            match action {
                StoreAction::Begin => {
                    let opened = match fault {
                        StoreFault::OpenFails => false,
                        _ => self.ledger.begin(),
                    };
                    event = if opened {
                        StoreEvent::Succeeded
                    } else {
                        StoreEvent::Failed
                    };
                },
                StoreAction::Write(held) => {
                    let written = match fault {
                        StoreFault::WriteFails => false,
                        _ => self.ledger.write(held),
                    };
                    proof {
                        assert(Seq::<BlockData>::empty().push(block) =~= seq![block]);
                    }
                    event = if written {
                        StoreEvent::Succeeded
                    } else {
                        StoreEvent::Failed
                    };
                },
                StoreAction::Commit => {
                    let committed = match fault {
                        StoreFault::CommitFails => {
                            self.ledger.rollback();
                            false
                        },
                        _ => self.ledger.commit(),
                    };
                    proof {
                        assert(seq![block].drop_last() =~= Seq::<BlockData>::empty());
                        assert(seq![block].last() == block);
                        assert(with_blocks(before, seq![block]) == before.insert(
                            number_of(block),
                            block,
                        )) by {
                            reveal_with_fuel(with_blocks, 2);
                        }
                    }
                    event = if committed {
                        StoreEvent::Succeeded
                    } else {
                        StoreEvent::Failed
                    };
                },
                StoreAction::Rollback => {
                    self.ledger.rollback();
                    event = StoreEvent::Succeeded;
                },
                StoreAction::Finish(outcome) => {
                    return outcome;
                },
            }
        }
    }
}

/// What storing `block` makes of `store`: the next planned fault is used
/// up; without a fault, and with no transaction left open, the block is
/// committed under its number, and otherwise the outcome is a connection
/// failure and what is committed stays as it was. No transaction is left
/// open that was not open before.
pub open spec fn stores(
    store: LedgerStore,
    block: BlockData,
    after: LedgerStore,
    outcome: Result<(), SyncError2>,
) -> bool {
    &&& after.faults@ == later_faults(store.faults@)
    &&& after.ledger.in_transaction() == store.ledger.in_transaction()
    &&& if next_fault(store.faults@) == StoreFault::NoFault && !store.ledger.in_transaction() {
        &&& outcome is Ok
        &&& after.ledger.committed() == store.ledger.committed().insert(number_of(block), block)
    } else {
        &&& outcome == Err::<(), SyncError2>(SyncError2::ConnectionFailure)
        &&& after.ledger.committed() == store.ledger.committed()
    }
}

impl ProcessStage for LedgerStore {
    type Input = BlockData;

    type Output = ();

    open spec fn maps(&self, input: BlockData, after: LedgerStore, outcome: Result<(), SyncError2>) -> bool {
        stores(*self, input, after, outcome)
    }

    fn map(&mut self, input: BlockData) -> (outcome: Result<(), SyncError2>) {
        self.store(input)
    }
}

/// How many values `output` holds: all of its items but a failure at its
/// end.
pub open spec fn values_sent<T>(output: Seq<SyncResult<T>>) -> int {
    if output.len() > 0 && output.last() is Err {
        output.len() - 1
    } else {
        output.len() as int
    }
}

/// The blocks among `blocks` for which the store stage sent a success, in
/// order.
pub open spec fn committed_blocks(
    blocks: Seq<SyncResult<BlockData>>,
    stored: Seq<SyncResult<()>>,
) -> Seq<BlockData> {
    Seq::new(values_sent(stored) as nat, |i: int| blocks[i]->Ok_0.data)
}

proof fn lemma_ledger_after_values(
    states: Seq<LedgerStore>,
    blocks: Seq<SyncResult<BlockData>>,
    stored: Seq<SyncResult<()>>,
    done: int,
)
    requires
        stage_outputs(blocks, stored),
        stage_trace(states, blocks, stored),
        0 <= done <= values_sent(stored),
    ensures
        states[done].ledger.committed() == with_blocks(
            states[0].ledger.committed(),
            committed_blocks(blocks, stored).take(done),
        ),
    decreases done,
{
    let committed = committed_blocks(blocks, stored);
    if done == 0 {
        assert(committed.take(0) =~= Seq::<BlockData>::empty());
    } else {
        lemma_ledger_after_values(states, blocks, stored, done - 1);
        let at = done - 1;
        assert(stored[at] is Ok);
        assert(passes_on(blocks[at], stored[at]));
        assert(blocks[at] is Ok);
        assert(states[at].maps(blocks[at]->Ok_0.data, states[at + 1], Ok(())));
        assert(committed.take(done).drop_last() =~= committed.take(at));
        assert(committed.take(done).last() == blocks[at]->Ok_0.data);
    }
}

/// After a run of the store stage over a ledger, the ledger holds what it
/// held before and the blocks for which a success was sent, each under its
/// number: a block that failed, and the blocks behind it, left no trace.
pub proof fn lemma_ledger_holds_the_stored_blocks(
    states: Seq<LedgerStore>,
    blocks: Seq<SyncResult<BlockData>>,
    stored: Seq<SyncResult<()>>,
)
    requires
        stage_outputs(blocks, stored),
        stage_trace(states, blocks, stored),
    ensures
        states.last().ledger.committed() == with_blocks(
            states[0].ledger.committed(),
            committed_blocks(blocks, stored),
        ),
{
    let values = values_sent(stored);
    lemma_ledger_after_values(states, blocks, stored, values);
    assert(committed_blocks(blocks, stored).take(values) =~= committed_blocks(blocks, stored));
    if values < stored.len() {
        assert(stored[values] is Err);
        assert(passes_on(blocks[values], stored[values]));
        if blocks[values] is Ok {
            assert(states[values].maps(
                blocks[values]->Ok_0.data,
                states[values + 1],
                Err(stored[values]->Err_0.data),
            ));
        }
    }
}

/// A store for which no fault is planned, and in which no transaction was
/// left open, rejects no block.
pub proof fn lemma_store_without_faults_accepts(
    states: Seq<LedgerStore>,
    blocks: Seq<SyncResult<BlockData>>,
    stored: Seq<SyncResult<()>>,
)
    requires
        stage_outputs(blocks, stored),
        stage_trace(states, blocks, stored),
        states[0].faults@.len() == 0,
        !states[0].ledger.in_transaction(),
    ensures
        accepts(blocks, stored),
{
    assert forall|i: int| 0 <= i < stored.len() implies (#[trigger] states[i]).faults@.len() == 0
        && !states[i].ledger.in_transaction() && (blocks[i] is Ok ==> stored[i] is Ok) by {
        lemma_store_stays_without_faults(states, blocks, stored, i);
    }
    assert forall|i: int| 0 <= i < stored.len() && i < blocks.len() && blocks[i] is Ok implies (
    #[trigger] stored[i]) is Ok by {
        assert(states[i].faults@.len() == 0);
    }
}

proof fn lemma_store_stays_without_faults(
    states: Seq<LedgerStore>,
    blocks: Seq<SyncResult<BlockData>>,
    stored: Seq<SyncResult<()>>,
    at: int,
)
    requires
        stage_outputs(blocks, stored),
        stage_trace(states, blocks, stored),
        states[0].faults@.len() == 0,
        !states[0].ledger.in_transaction(),
        0 <= at < stored.len(),
    ensures
        states[at].faults@.len() == 0,
        !states[at].ledger.in_transaction(),
        blocks[at] is Ok ==> stored[at] is Ok,
    decreases at,
{
    if at > 0 {
        lemma_store_stays_without_faults(states, blocks, stored, at - 1);
        let before = at - 1;
        assert(stored[before] is Ok);
        assert(passes_on(blocks[before], stored[before]));
        assert(states[before].maps(blocks[before]->Ok_0.data, states[before + 1], Ok(())));
    }
    if blocks[at] is Ok {
        assert(states[at].maps(
            blocks[at]->Ok_0.data,
            states[at + 1],
            outcome_of(stored[at]),
        ));
    }
}

/// The blocks of a channel that holds values only, in order.
pub open spec fn block_values(blocks: Seq<SyncResult<BlockData>>) -> Seq<BlockData> {
    Seq::new(blocks.len(), |i: int| blocks[i]->Ok_0.data)
}

/// A run of the store stage that failed part of the way can be made again
/// over the ledger that it left, with the same blocks: where no fault
/// strikes the second run, it stores every block, and the ledger ends as a
/// single run without a fault would have left it.
pub proof fn lemma_second_run_ends_as_a_clean_run(
    blocks: Seq<SyncResult<BlockData>>,
    first: Seq<LedgerStore>,
    first_stored: Seq<SyncResult<()>>,
    second: Seq<LedgerStore>,
    second_stored: Seq<SyncResult<()>>,
)
    requires
        forall|i: int| 0 <= i < blocks.len() ==> (#[trigger] blocks[i]) is Ok,
        stage_outputs(blocks, first_stored),
        stage_trace(first, blocks, first_stored),
        stage_outputs(blocks, second_stored),
        stage_trace(second, blocks, second_stored),
        second[0].ledger.committed() == first.last().ledger.committed(),
        second[0].faults@.len() == 0,
        !second[0].ledger.in_transaction(),
    ensures
        second_stored.len() == blocks.len(),
        forall|i: int| 0 <= i < second_stored.len() ==> (#[trigger] second_stored[i]) is Ok,
        second.last().ledger.committed() == with_blocks(
            first[0].ledger.committed(),
            block_values(blocks),
        ),
{
    let all = block_values(blocks);
    let done = values_sent(first_stored);
    lemma_ledger_holds_the_stored_blocks(first, blocks, first_stored);
    assert(committed_blocks(blocks, first_stored) =~= all.take(done));
    lemma_store_without_faults_accepts(second, blocks, second_stored);
    lemma_accepting_stage_sends_values(blocks, second_stored, blocks.len() as int);
    if second_stored.len() > 0 {
        assert(second_stored[second_stored.len() - 1] is Ok);
    }
    lemma_ledger_holds_the_stored_blocks(second, blocks, second_stored);
    assert(committed_blocks(blocks, second_stored) =~= all);
    lemma_storing_again_changes_nothing(first[0].ledger.committed(), all, done);
}

} // verus!
