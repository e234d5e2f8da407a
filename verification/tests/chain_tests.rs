use starcoin::chain::{
    average_difficulty, block_template, block_transactions, difficulty_window, found_or_default,
    proof_leaf_indices, ApplyError, BlockHeader, ChainHead, ExecutionOutcome, ExecutionStep,
    ProofError, Transaction, TransactionExecution,
};
use starcoin::primitives::{AccountAddress, HashValue};
use starcoin::u256::U256;

fn hash(b: u8) -> HashValue {
    HashValue::new([b; 32])
}

fn header(id: u8, parent: u8, number: u64, root: u8) -> BlockHeader {
    BlockHeader {
        id: hash(id),
        parent_hash: hash(parent),
        number,
        state_root: hash(root),
        difficulty: U256::from_u64(10),
        total_difficulty: U256::from_u64(100),
    }
}

#[test]
fn block_runs_user_transactions_then_metadata() {
    let txns = block_transactions(vec!["t1", "t2"], 99u32);
    assert_eq!(
        txns,
        vec![
            Transaction::UserTransaction("t1"),
            Transaction::UserTransaction("t2"),
            Transaction::BlockMetadata(99)
        ]
    );
    let only_meta = block_transactions(Vec::<u8>::new(), 1u8);
    assert_eq!(only_meta, vec![Transaction::BlockMetadata(1u8)]);
}

#[test]
fn execution_runs_commits_and_finishes() {
    let mut run = TransactionExecution::new(2);
    assert_eq!(run.step(), ExecutionStep::Execute(0));
    run.executed(hash(1), ExecutionOutcome::Keep);
    assert_eq!(run.step(), ExecutionStep::Commit);
    run.committed(hash(11));
    assert_eq!(run.step(), ExecutionStep::Execute(1));
    run.executed(hash(2), ExecutionOutcome::Keep);
    run.committed(hash(12));
    assert_eq!(run.step(), ExecutionStep::Finished);
    assert!(run.state_root.same_as(&hash(12)));
    assert_eq!(run.txn_hashes, vec![hash(1), hash(2)]);
}

#[test]
fn discarded_transaction_ends_the_run() {
    let mut run = TransactionExecution::new(3);
    run.executed(hash(1), ExecutionOutcome::Keep);
    run.committed(hash(11));
    run.executed(hash(2), ExecutionOutcome::Discard);
    assert_eq!(run.step(), ExecutionStep::Discarded(1));
    assert_eq!(run.txn_hashes, vec![hash(1)]);
}

#[test]
fn apply_accepts_child_with_matching_root() {
    let mut chain = ChainHead::new(header(1, 0, 0, 50));
    let child = header(2, 1, 1, 60);
    assert!(chain.extends_head(&child));
    let mut run = chain.begin_apply(&child, 1).unwrap();
    run.executed(hash(7), ExecutionOutcome::Keep);
    run.committed(hash(60));
    assert_eq!(chain.finish_apply(child, &run), Ok(()));
    assert_eq!(chain.head, child);
}

#[test]
fn apply_refuses_wrong_parent_and_wrong_root() {
    let mut chain = ChainHead::new(header(1, 0, 0, 50));
    let stranger = header(3, 9, 1, 60);
    assert!(!chain.extends_head(&stranger));
    assert!(matches!(chain.begin_apply(&stranger, 1), Err(ApplyError::ParentMismatch)));
    let child = header(2, 1, 1, 60);
    let mut run = chain.begin_apply(&child, 1).unwrap();
    run.executed(hash(7), ExecutionOutcome::Keep);
    run.committed(hash(61));
    assert_eq!(chain.finish_apply(child, &run), Err(ApplyError::StateRootMismatch));
    assert_eq!(chain.head, header(1, 0, 0, 50));
    assert_eq!(chain.finish_apply(stranger, &run), Err(ApplyError::ParentMismatch));
}

#[test]
fn leaf_indices_follow_first_leaf() {
    assert_eq!(proof_leaf_indices(5, 3), Ok(vec![5, 6, 7]));
    assert_eq!(proof_leaf_indices(5, 0), Err(ProofError::InvalidLeaves));
    assert_eq!(proof_leaf_indices(u64::MAX, 1), Ok(vec![u64::MAX]));
}

#[test]
fn template_follows_previous_header() {
    let previous = header(4, 3, 41, 0);
    let author = AccountAddress::new([5u8; 16]);
    let t = block_template(
        &previous,
        Some(U256::from_u64(300)),
        U256::from_u64(200),
        1234,
        author,
        hash(8),
        hash(9),
        U256::from_u64(7),
        vec!["u"],
    );
    assert!(t.parent_hash.same_as(&hash(4)));
    assert_eq!(t.number, 42);
    assert_eq!(t.timestamp, 1234);
    assert!(t.author == author);
    assert!(t.accumulator_root.same_as(&hash(8)));
    assert!(t.state_root.same_as(&hash(9)));
    assert_eq!((t.gas_used, t.gas_limit), (0, 0));
    assert_eq!(t.difficulty, U256::from_u64(7));
    assert_eq!(t.total_difficulty, U256::from_u64(500));
    assert_eq!(t.user_txns, vec!["u"]);
    let first = block_template(
        &previous, None, U256::from_u64(200), 0, author, hash(8), hash(9), U256::zero(), Vec::<u8>::new(),
    );
    assert_eq!(first.total_difficulty, U256::from_u64(200));
}

#[test]
fn difficulty_window_counts_down_from_head() {
    assert_eq!(difficulty_window(3), vec![3, 2, 1]);
    assert_eq!(difficulty_window(0), Vec::<u64>::new());
    assert_eq!(difficulty_window(25), (16..=25).rev().collect::<Vec<u64>>());
}

#[test]
fn average_difficulty_sums_rounded_shares() {
    let ds = vec![U256::from_u64(10), U256::from_u64(11), U256::from_u64(12)];
    // 10/3 + 11/3 + 12/3 = 3 + 3 + 4
    assert_eq!(average_difficulty(&ds), U256::from_u64(10));
    assert_eq!(average_difficulty(&vec![]), U256::zero());
    let big = U256 { words: [0, 0, 0, 1u64 << 63] };
    let avg = average_difficulty(&vec![big, big]);
    assert_eq!(avg, big);
}

#[test]
fn lookup_fallback() {
    assert_eq!(found_or_default::<u8, ()>(Ok(Some(3)), 9), 3);
    assert_eq!(found_or_default::<u8, ()>(Ok(None), 9), 9);
    assert_eq!(found_or_default::<u8, &str>(Err("gone"), 9), 9);
}

#[test]
fn u256_arithmetic_carries_across_words() {
    let a = U256 { words: [u64::MAX, 0, 0, 0] };
    let sum = a.add(U256::from_u64(1));
    assert_eq!(sum, U256 { words: [0, 1, 0, 0] });
    assert_eq!(sum.div(U256::from_u64(2)), U256 { words: [1u64 << 63, 0, 0, 0] });
    assert_eq!(U256::from_u64(7).div(U256::from_u64(2)), U256::from_u64(3));
}

#[test]
fn average_never_exceeds_largest_difficulty() {
    let ds = vec![U256::from_u64(1), U256::from_u64(1000), U256::from_u64(999)];
    let avg = average_difficulty(&ds);
    assert_eq!(avg, U256::from_u64(666));
    assert!(avg.words[0] <= 1000);
    // Each share is rounded down before the shares are added up.
    let same = vec![U256::from_u64(25); 10];
    assert_eq!(average_difficulty(&same), U256::from_u64(20));
}

#[test]
fn apply_run_starts_from_zero_state_root() {
    let chain = ChainHead::new(header(1, 0, 0, 50));
    let run = chain.begin_apply(&header(2, 1, 2, 60), 2).unwrap();
    assert_eq!(run.state_root, HashValue::new([0u8; 32]));
    assert_eq!(run.count, 2);
}
