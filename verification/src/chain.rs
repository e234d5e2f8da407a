//! The decisions a block chain makes around its storage, executor and
//! accumulator: which transactions a block runs, how their execution is
//! sequenced and committed, which leaves of the accumulator are proved, what a
//! new block template holds, how the current difficulty is averaged, and when
//! a block may become the new head.

use vstd::prelude::*;
use crate::primitives::{AccountAddress, HashValue};
use crate::u256::{u256_bound, U256};

verus! {

/// The height of a block.
pub type BlockNumber = u64;

/// How many recent blocks the difficulty is averaged over, at most.
pub const DIFFICULTY_WINDOW: u64 = 10;

/// What the chain reads of a block header.
#[derive(Clone, Copy, Debug, PartialEq, Eq)]
pub struct BlockHeader {
    pub id: HashValue,
    pub parent_hash: HashValue,
    pub number: BlockNumber,
    pub state_root: HashValue,
    pub difficulty: U256,
    pub total_difficulty: U256,
}

/// A transaction of a block: one sent by a user, or the block's metadata,
/// which the chain runs after the user transactions.
#[derive(Clone, Debug, PartialEq, Eq)]
pub enum Transaction<U, M> {
    UserTransaction(U),
    BlockMetadata(M),
}

/// The transactions a block runs: its user transactions, in order, then its metadata.
pub fn block_transactions<U, M>(user_txns: Vec<U>, metadata: M) -> (res: Vec<Transaction<U, M>>)
    ensures
        res@.len() == user_txns@.len() + 1,
        forall|i: int| 0 <= i < user_txns@.len() ==> res@[i] == Transaction::<U, M>::UserTransaction(user_txns@[i]),
        res@[user_txns@.len() as int] == Transaction::<U, M>::BlockMetadata(metadata),
{
    let ghost users = user_txns@;
    let mut res: Vec<Transaction<U, M>> = Vec::new();
    for txn in it: user_txns.into_iter()
        invariant
            it.seq() == users,
            res@.len() == it.index(),
            forall|i: int| 0 <= i < it.index() ==> res@[i] == Transaction::<U, M>::UserTransaction(users[i]),
    {
        res.push(Transaction::UserTransaction(txn));
    }
    res.push(Transaction::BlockMetadata(metadata));
    res
}

/// What the executor decided of a transaction: keep its effects, or discard it.
#[derive(Clone, Copy, Debug, PartialEq, Eq, Structural)]
pub enum ExecutionOutcome {
    Keep,
    Discard,
}

/// What the chain must do next while it runs a block's transactions.
#[derive(Clone, Copy, Debug, PartialEq, Eq, Structural)]
pub enum ExecutionStep {
    /// Execute the transaction at this index.
    Execute(usize),
    /// Commit the state the kept transaction left and report the new state root.
    Commit,
    /// The transaction at this index was discarded: the block fails with its status.
    Discarded(usize),
    /// Every transaction was kept and committed.
    Finished,
}

/// The progress of running a block's transactions one after another: each is
/// executed, a discarded one ends the run, and a kept one is committed before
/// the next is executed. The hashes of the committed transactions are
/// collected, in order, for the accumulator.
pub struct TransactionExecution {
    pub count: usize,
    pub next: usize,
    pub pending: Option<HashValue>,
    pub discarded: bool,
    pub state_root: HashValue,
    pub txn_hashes: Vec<HashValue>,
}

impl TransactionExecution {
    /// The run is consistent: as many hashes as committed transactions, and a
    /// pending commit or a discard only at a transaction that exists.
    pub open spec fn well_formed(self) -> bool {
        &&& self.next <= self.count
        &&& self.txn_hashes@.len() == self.next
        &&& (self.pending is Some ==> self.next < self.count && !self.discarded)
        &&& (self.discarded ==> self.next < self.count)
    }

    /// The step the run is at.
    pub open spec fn current_step(self) -> ExecutionStep {
        if self.discarded {
            ExecutionStep::Discarded(self.next)
        } else if self.pending is Some {
            ExecutionStep::Commit
        } else if self.next < self.count {
            ExecutionStep::Execute(self.next)
        } else {
            ExecutionStep::Finished
        }
    }

    /// A run over `count` transactions, none executed yet, from the zero state root.
    pub fn new(count: usize) -> (res: TransactionExecution)
        ensures
            res.well_formed(),
            res.count == count,
            res.next == 0,
            res.pending is None,
            !res.discarded,
            res.state_root@ == HashValue::zero_spec(),
            res.txn_hashes@ == Seq::<HashValue>::empty(),
    {
        TransactionExecution {
            count,
            next: 0,
            pending: None,
            discarded: false,
            state_root: HashValue::zero(),
            txn_hashes: Vec::new(),
        }
    }

    pub fn step(&self) -> (res: ExecutionStep)
        requires
            self.well_formed(),
        ensures
            res == self.current_step(),
    {
        if self.discarded {
            ExecutionStep::Discarded(self.next)
        } else if self.pending.is_some() {
            ExecutionStep::Commit
        } else if self.next < self.count {
            ExecutionStep::Execute(self.next)
        } else {
            ExecutionStep::Finished
        }
    }

    /// Records what the executor decided of the transaction the run is at,
    /// whose hash is `txn_hash`.
    pub fn executed(&mut self, txn_hash: HashValue, outcome: ExecutionOutcome)
        requires
            old(self).well_formed(),
            old(self).current_step() is Execute,
        ensures
            final(self).well_formed(),
            final(self).count == old(self).count,
            final(self).next == old(self).next,
            final(self).state_root == old(self).state_root,
            final(self).txn_hashes@ == old(self).txn_hashes@,
            outcome == ExecutionOutcome::Keep ==> final(self).pending == Some(txn_hash) && !final(self).discarded,
            outcome == ExecutionOutcome::Discard ==> final(self).pending is None && final(self).discarded,
    {
        match outcome {
            ExecutionOutcome::Keep => {
                self.pending = Some(txn_hash);
            },
            ExecutionOutcome::Discard => {
                self.discarded = true;
            },
        }
    }

    /// Records the state root that committing the kept transaction produced;
    /// its hash joins the committed ones and the run moves to the next transaction.
    pub fn committed(&mut self, state_root: HashValue)
        requires
            old(self).well_formed(),
            old(self).current_step() == ExecutionStep::Commit,
        ensures
            final(self).well_formed(),
            final(self).count == old(self).count,
            final(self).next == old(self).next + 1,
            final(self).pending is None,
            !final(self).discarded,
            final(self).state_root == state_root,
            final(self).txn_hashes@ == old(self).txn_hashes@.push(old(self).pending->0),
    {
        match self.pending {
            Some(hash) => {
                self.txn_hashes.push(hash);
            },
            None => {},
        }
        self.pending = None;
        self.state_root = state_root;
        self.next = self.next + 1;
    }
}

/// A run reaches its end only by committing every transaction, in order: it
/// then holds one hash per transaction, and no discard happened.
pub proof fn lemma_finished_run_committed_all(run: TransactionExecution)
    requires
        run.well_formed(),
        run.current_step() == ExecutionStep::Finished,
    ensures
        run.txn_hashes@.len() == run.count,
        !run.discarded,
        run.pending is None,
{
}

/// A discarded transaction ends the run for good: the run stays at that
/// transaction, and nothing more can be executed or committed.
pub proof fn lemma_discard_is_final(run: TransactionExecution)
    requires
        run.well_formed(),
        run.discarded,
    ensures
        run.current_step() == ExecutionStep::Discarded(run.next),
        !(run.current_step() is Execute),
        run.current_step() != ExecutionStep::Commit,
        run.current_step() != ExecutionStep::Finished,
{
}

/// Why a block cannot become the new head.
#[derive(Clone, Copy, Debug, PartialEq, Eq, Structural)]
pub enum ApplyError {
    /// The block's parent is not the current head.
    ParentMismatch,
    /// The state root the block's transactions produced is not the one its header names.
    StateRootMismatch,
}

/// The part of a block chain's state that applying blocks decides on: its head.
#[derive(Clone, Copy, Debug)]
pub struct ChainHead {
    pub head: BlockHeader,
}

impl ChainHead {
    pub fn new(head: BlockHeader) -> (res: ChainHead)
        ensures
            res.head == head,
    {
        ChainHead { head }
    }

    /// Whether a block with this header extends the head: its parent is the head.
    pub fn extends_head(&self, header: &BlockHeader) -> (res: bool)
        ensures
            res == (header.parent_hash@ == self.head.id@),
    {
        header.parent_hash.same_as(&self.head.id)
    }

    /// Starts applying a block of `txn_count` transactions: refused unless the
    /// block extends the head.
    pub fn begin_apply(&self, header: &BlockHeader, txn_count: usize) -> (res: Result<TransactionExecution, ApplyError>)
        ensures
            (header.parent_hash@ == self.head.id@) <==> res is Ok,
            res matches Ok(run) ==> run.well_formed() && run.count == txn_count && run.next == 0
                && run.pending is None && !run.discarded && run.txn_hashes@.len() == 0
                && run.state_root@ == HashValue::zero_spec(),
            res matches Err(e) ==> e == ApplyError::ParentMismatch,
    {
        if self.extends_head(header) {
            Ok(TransactionExecution::new(txn_count))
        } else {
            Err(ApplyError::ParentMismatch)
        }
    }

    /// Makes the block the new head once all of its transactions have been
    /// committed: it must extend the head, and the state root the run reached
    /// must be the one its header names. A refused block leaves the head as it was.
    pub fn finish_apply(&mut self, header: BlockHeader, run: &TransactionExecution) -> (res: Result<(), ApplyError>)
        requires
            run.well_formed(),
            run.current_step() == ExecutionStep::Finished,
        ensures
            res is Ok <==> (header.parent_hash@ == old(self).head.id@ && header.state_root@ == run.state_root@),
            res matches Err(e) ==> (e == ApplyError::ParentMismatch <==> header.parent_hash@ != old(self).head.id@),
            res is Ok ==> final(self).head == header,
            res is Err ==> final(self).head == old(self).head,
    {
        if !self.extends_head(&header) {
            return Err(ApplyError::ParentMismatch);
        }
        if !header.state_root.same_as(&run.state_root) {
            return Err(ApplyError::StateRootMismatch);
        }
        self.head = header;
        Ok(())
    }
}

/// Why the leaves of a run cannot be proved against the accumulator.
#[derive(Clone, Copy, Debug, PartialEq, Eq, Structural)]
pub enum ProofError {
    /// There are no leaves to prove.
    InvalidLeaves,
}

/// The accumulator indices of `leaf_count` leaves appended from `first_leaf_idx`
/// on, each of which gets its proof checked; refused when there are no leaves.
pub fn proof_leaf_indices(first_leaf_idx: u64, leaf_count: usize) -> (res: Result<Vec<u64>, ProofError>)
    requires
        first_leaf_idx + leaf_count <= u64::MAX + 1,
    ensures
        leaf_count > 0 <==> res is Ok,
        res matches Ok(indices) ==> indices@.len() == leaf_count
            && forall|i: int| 0 <= i < leaf_count ==> indices@[i] == first_leaf_idx + i,
        res matches Err(e) ==> e == ProofError::InvalidLeaves,
{
    if leaf_count == 0 {
        return Err(ProofError::InvalidLeaves);
    }
    let mut indices: Vec<u64> = Vec::new();
    let mut i: usize = 0;
    while i < leaf_count
        invariant
            first_leaf_idx + leaf_count <= u64::MAX + 1,
            i <= leaf_count,
            indices@.len() == i,
            forall|j: int| 0 <= j < i ==> indices@[j] == first_leaf_idx + j,
        decreases leaf_count - i,
    {
        indices.push(first_leaf_idx + i as u64);
        i = i + 1;
    }
    Ok(indices)
}

/// A block template: what a miner needs to build the next block.
pub struct BlockTemplate<T> {
    pub parent_hash: HashValue,
    pub timestamp: u64,
    pub number: BlockNumber,
    pub author: AccountAddress,
    pub accumulator_root: HashValue,
    pub state_root: HashValue,
    pub gas_used: u64,
    pub gas_limit: u64,
    pub difficulty: U256,
    pub total_difficulty: U256,
    pub user_txns: Vec<T>,
}

/// The total difficulty a template carries: that of the chain's block at the
/// previous header's height (zero when there is none) plus the head's.
pub open spec fn template_total_difficulty(parent_total: Option<U256>, head_total: U256) -> nat {
    match parent_total {
        Some(t) => t.value() + head_total.value(),
        None => head_total.value(),
    }
}

/// The template of the block that follows `previous`: numbered one past it,
/// naming it as parent, with no gas used or allowed yet.
pub fn block_template<T>(
    previous: &BlockHeader,
    parent_total_difficulty: Option<U256>,
    head_total_difficulty: U256,
    timestamp: u64,
    author: AccountAddress,
    accumulator_root: HashValue,
    state_root: HashValue,
    difficulty: U256,
    user_txns: Vec<T>,
) -> (res: BlockTemplate<T>)
    requires
        previous.number < u64::MAX,
        template_total_difficulty(parent_total_difficulty, head_total_difficulty) < u256_bound(),
    ensures
        res.parent_hash == previous.id,
        res.timestamp == timestamp,
        res.number == previous.number + 1,
        res.author == author,
        res.accumulator_root == accumulator_root,
        res.state_root == state_root,
        res.gas_used == 0,
        res.gas_limit == 0,
        res.difficulty == difficulty,
        res.total_difficulty.value() == template_total_difficulty(parent_total_difficulty, head_total_difficulty),
        res.total_difficulty.value() == (match parent_total_difficulty {
            Some(t) => t.value(),
            None => 0nat,
        }) + head_total_difficulty.value(),
        res.user_txns@ == user_txns@,
{
    let parent_total = match parent_total_difficulty {
        Some(t) => t,
        None => U256::zero(),
    };
    let total_difficulty = parent_total.add(head_total_difficulty);
    BlockTemplate {
        parent_hash: previous.id,
        timestamp,
        number: previous.number + 1,
        author,
        accumulator_root,
        state_root,
        gas_used: 0,
        gas_limit: 0,
        difficulty,
        total_difficulty,
        user_txns,
    }
}

/// What a lookup that may fail or find nothing falls back to: the value found,
/// or `default` when the lookup failed or found nothing.
pub fn found_or_default<T, E>(lookup: Result<Option<T>, E>, default: T) -> (res: T)
    ensures
        lookup matches Ok(Some(found)) ==> res == found,
        !(lookup matches Ok(Some(_))) ==> res == default,
{
    match lookup {
        Ok(Some(found)) => found,
        _ => default,
    }
}

/// How many recent blocks the difficulty of a chain whose head is at `head_number`
/// is averaged over: ten, or fewer on a chain not yet that long.
pub open spec fn window_len(head_number: BlockNumber) -> nat {
    if head_number < DIFFICULTY_WINDOW {
        head_number as nat
    } else {
        DIFFICULTY_WINDOW as nat
    }
}

/// The heights of the blocks the difficulty is averaged over, from the head down.
pub fn difficulty_window(head_number: BlockNumber) -> (res: Vec<BlockNumber>)
    ensures
        res@.len() == window_len(head_number),
        res@.len() == if head_number < 10 { head_number as nat } else { 10nat },
        forall|i: int| 0 <= i < res@.len() ==> res@[i] == head_number - i,
{
    let mut block_count: u64 = DIFFICULTY_WINDOW;
    if block_count > head_number {
        block_count = head_number;
    }
    let mut current_number = head_number;
    let mut numbers: Vec<BlockNumber> = Vec::new();
    let mut taken: u64 = 0;
    while taken < block_count
        invariant
            block_count == window_len(head_number),
            block_count <= head_number,
            taken <= block_count,
            current_number == head_number - taken,
            numbers@.len() == taken,
            forall|i: int| 0 <= i < taken ==> numbers@[i] == head_number - i,
        decreases block_count - taken,
    {
        numbers.push(current_number);
        current_number = current_number - 1;
        taken = taken + 1;
    }
    numbers
}

/// The total difficulty of a template adds the head's total difficulty to that
/// of the block at the previous header's height, counting a missing block as
/// zero: it is never less than the head's, and exceeds it by exactly the
/// parent's total.
pub proof fn lemma_template_total_is_sum(parent_total: Option<U256>, head_total: U256)
    ensures
        template_total_difficulty(parent_total, head_total) == (match parent_total {
            Some(t) => t.value(),
            None => 0nat,
        }) + head_total.value(),
        template_total_difficulty(parent_total, head_total) >= head_total.value(),
        parent_total matches Some(t) ==> template_total_difficulty(parent_total, head_total) - head_total.value()
            == t.value(),
        parent_total is None ==> template_total_difficulty(parent_total, head_total) == head_total.value(),
{
}

/// The difficulty is averaged over the ten blocks from the head down, or over
/// every block above the genesis on a chain lower than ten: the window never
/// reaches below height 1, and grows by one with each block until it holds ten.
pub proof fn lemma_window_len(head_number: BlockNumber)
    ensures
        window_len(head_number) == if head_number < 10 { head_number as nat } else { 10nat },
        window_len(head_number) <= 10,
        window_len(head_number) <= head_number,
        head_number >= 10 ==> window_len(head_number) == 10,
        head_number < u64::MAX ==> window_len((head_number + 1) as u64) == if head_number < 10 {
            window_len(head_number) + 1
        } else {
            window_len(head_number)
        },
{
}

/// The average of difficulties as the chain computes it: each one divided by
/// their count, rounded down, and the quotients added up.
pub open spec fn sum_of_shares(difficulties: Seq<U256>, count: nat) -> nat
    decreases difficulties.len(),
{
    if difficulties.len() == 0 {
        0
    } else {
        sum_of_shares(difficulties.drop_last(), count) + difficulties.last().value() / count
    }
}

/// The largest value in a sequence of 256-bit values (zero for none).
pub open spec fn max_value(values: Seq<U256>) -> nat
    decreases values.len(),
{
    if values.len() == 0 {
        0
    } else if values.last().value() >= max_value(values.drop_last()) {
        values.last().value()
    } else {
        max_value(values.drop_last())
    }
}

/// The shares of `k` values, each at most `bound`, add up to at most `k` times
/// `bound / count`.
proof fn lemma_shares_bounded(difficulties: Seq<U256>, count: nat, bound: nat)
    requires
        count > 0,
        forall|i: int| 0 <= i < difficulties.len() ==> #[trigger] difficulties[i].value() <= bound,
    ensures
        sum_of_shares(difficulties, count) <= difficulties.len() * (bound / count),
    decreases difficulties.len(),
{
    if difficulties.len() > 0 {
        let rest = difficulties.drop_last();
        assert forall|i: int| 0 <= i < rest.len() implies #[trigger] rest[i].value() <= bound by {
            assert(rest[i] == difficulties[i]);
        }
        lemma_shares_bounded(rest, count, bound);
        let last = difficulties.last().value();
        assert(last <= bound) by {
            assert(difficulties.last() == difficulties[difficulties.len() - 1]);
        }
        vstd::arithmetic::div_mod::lemma_div_is_ordered(last as int, bound as int, count as int);
        let k = rest.len() as int;
        let q = (bound / count) as int;
        assert(k * q + q == (k + 1) * q) by (nonlinear_arith);
    }
}

/// Every value of a sequence is at most its [`max_value`].
proof fn lemma_max_value_bounds(values: Seq<U256>)
    ensures
        forall|i: int| 0 <= i < values.len() ==> #[trigger] values[i].value() <= max_value(values),
    decreases values.len(),
{
    if values.len() > 0 {
        let rest = values.drop_last();
        lemma_max_value_bounds(rest);
        assert forall|i: int| 0 <= i < values.len() implies #[trigger] values[i].value() <= max_value(values) by {
            if i < values.len() - 1 {
                assert(values[i] == rest[i]);
            }
        }
    }
}

/// Shares of at most `count` values, each divided by `count`, add up to no more
/// than the largest value.
proof fn lemma_shares_at_most_max(difficulties: Seq<U256>, count: nat)
    requires
        0 < count,
        difficulties.len() <= count,
    ensures
        sum_of_shares(difficulties, count) <= max_value(difficulties),
{
    let n = difficulties.len() as int;
    let c = count as int;
    let m = max_value(difficulties) as int;
    lemma_max_value_bounds(difficulties);
    lemma_shares_bounded(difficulties, count, m as nat);
    let q = m / c;
    vstd::arithmetic::div_mod::lemma_fundamental_div_mod(m, c);
    assert(0 <= q) by {
        vstd::arithmetic::div_mod::lemma_div_pos_is_pos(m, c);
    }
    assert(n * q <= c * q) by (nonlinear_arith)
        requires
            0 <= n <= c,
            0 <= q,
    {
    }
    assert(0 <= m % c) by {
        vstd::arithmetic::div_mod::lemma_mod_pos_bound(m, c);
    }
}

/// Averaging never exceeds the largest difficulty averaged, and so never
/// leaves the 256-bit range.
pub proof fn lemma_average_at_most_max(difficulties: Seq<U256>)
    requires
        difficulties.len() > 0,
    ensures
        sum_of_shares(difficulties, difficulties.len()) <= max_value(difficulties),
        max_value(difficulties) < u256_bound(),
{
    lemma_shares_at_most_max(difficulties, difficulties.len());
    lemma_max_value_bounded(difficulties);
}

/// Every value is below 2^256, and so is their maximum.
proof fn lemma_max_value_bounded(values: Seq<U256>)
    ensures
        max_value(values) < u256_bound(),
    decreases values.len(),
{
    if values.len() > 0 {
        lemma_max_value_bounded(values.drop_last());
        values.last().lemma_bounded();
    }
}

/// The difficulty over a window of blocks: each block's difficulty divided by
/// the number of blocks, the quotients added up; zero for an empty window.
pub fn average_difficulty(difficulties: &Vec<U256>) -> (res: U256)
    requires
        difficulties@.len() <= u64::MAX,
    ensures
        res.value() == sum_of_shares(difficulties@, difficulties@.len()),
{
    let count = difficulties.len();
    let mut avg_target = U256::zero();
    if count == 0 {
        return avg_target;
    }
    let divisor = U256::from_u64(count as u64);
    let mut i: usize = 0;
    while i < count
        invariant
            count == difficulties@.len(),
            count > 0,
            divisor.value() == count,
            i <= count,
            avg_target.value() == sum_of_shares(difficulties@.take(i as int), count as nat),
        decreases count - i,
    {
        let ghost prefix = difficulties@.take(i as int + 1);
        assert(prefix.drop_last() =~= difficulties@.take(i as int));
        assert(prefix.last() == difficulties@[i as int]);
        proof {
            lemma_shares_at_most_max(prefix, count as nat);
            lemma_max_value_bounded(prefix);
        }
        let share = difficulties[i].div(divisor);
        avg_target = avg_target.add(share);
        i = i + 1;
    }
    assert(difficulties@.take(count as int) =~= difficulties@);
    avg_target
}

} // verus!
