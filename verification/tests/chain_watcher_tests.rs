use starcoin::chain_watcher::{ChainWatcher, TxnWatchOutcome, WatchBlock, WatchTxn};
use starcoin::primitives::HashValue;

fn hash(b: u8) -> HashValue {
    HashValue::new([b; 32])
}

#[test]
fn block_watchers_answered_in_order_on_arrival() {
    let mut w: ChainWatcher<&str> = ChainWatcher::new();
    let msg = WatchBlock(5);
    w.watch_block(msg.0, "a");
    w.watch_block(5, "b");
    w.watch_block(6, "c");
    let answered = w.block_arrived(5, &vec![]);
    assert_eq!(answered, vec!["a", "b"]);
    // A second block of the same height finds nobody waiting.
    assert!(w.block_arrived(5, &vec![]).is_empty());
    assert_eq!(w.block_arrived(6, &vec![]), vec!["c"]);
}

#[test]
fn txn_watcher_answered_by_block_holding_it() {
    let mut w: ChainWatcher<u32> = ChainWatcher::new();
    let msg = WatchTxn { txn_hash: hash(1) };
    assert!(matches!(w.watch_txn(msg.txn_hash, 10), TxnWatchOutcome::Watching));
    assert!(matches!(w.watch_txn(hash(2), 20), TxnWatchOutcome::Watching));
    let answered = w.block_arrived(100, &vec![hash(3), hash(2), hash(1), hash(2)]);
    assert_eq!(answered, vec![20, 10]);
    assert!(w.block_arrived(101, &vec![hash(1), hash(2)]).is_empty());
}

#[test]
fn second_watch_of_same_txn_is_handed_back() {
    let mut w: ChainWatcher<u32> = ChainWatcher::new();
    assert!(matches!(w.watch_txn(hash(1), 1), TxnWatchOutcome::Watching));
    match w.watch_txn(hash(1), 2) {
        TxnWatchOutcome::AlreadyWatched(r) => assert_eq!(r, 2),
        TxnWatchOutcome::Watching => panic!("the first watcher keeps the transaction"),
    }
    assert_eq!(w.block_arrived(0, &vec![hash(1)]), vec![1]);
}

#[test]
fn block_answers_height_watchers_before_txn_watchers() {
    let mut w: ChainWatcher<u32> = ChainWatcher::new();
    w.watch_txn(hash(9), 1);
    w.watch_block(3, 2);
    assert_eq!(w.block_arrived(3, &vec![hash(9)]), vec![2, 1]);
}

#[test]
fn subscription_failure_answers_everybody() {
    let mut w: ChainWatcher<u32> = ChainWatcher::new();
    w.watch_block(1, 1);
    w.watch_block(2, 2);
    w.watch_block(1, 3);
    w.watch_txn(hash(4), 4);
    w.watch_txn(hash(5), 5);
    assert_eq!(w.subscription_failed(), vec![1, 3, 2, 4, 5]);
    assert!(w.subscription_failed().is_empty());
    assert!(w.block_arrived(1, &vec![hash(4)]).is_empty());
}

#[test]
fn every_watcher_is_answered_once_over_a_run() {
    let mut w: ChainWatcher<u32> = ChainWatcher::new();
    let mut answered: Vec<u32> = Vec::new();
    w.watch_block(1, 1);
    w.watch_txn(hash(7), 2);
    w.watch_block(2, 3);
    answered.extend(w.block_arrived(1, &vec![hash(7)]));
    assert_eq!(answered, vec![1, 2]);
    w.watch_txn(hash(8), 4);
    answered.extend(w.block_arrived(1, &vec![hash(7)]));
    answered.extend(w.block_arrived(3, &vec![]));
    assert_eq!(answered, vec![1, 2]);
    answered.extend(w.subscription_failed());
    answered.extend(w.subscription_failed());
    answered.extend(w.block_arrived(2, &vec![hash(8)]));
    answered.sort();
    assert_eq!(answered, vec![1, 2, 3, 4]);
}
