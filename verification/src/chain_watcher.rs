//! The chain watcher behind the RPC client: callers ask to be told when a block
//! of some height, or a block holding some transaction, arrives on the
//! subscription; each arriving block answers the callers waiting for it, and a
//! failed subscription answers every caller still waiting.
//!
//! The watcher holds the callers' responders (of any type `R`) and hands back,
//! for each event, the responders the event answers, in the order they are to
//! be answered; sending the answers is left to whoever runs the watcher.

use vstd::prelude::*;
use vstd::multiset::Multiset;
use crate::chain::BlockNumber;
use crate::primitives::HashValue;

verus! {

/// Keys appear at most once among the pairs.
pub open spec fn unique_keys<K, V>(pairs: Seq<(K, V)>) -> bool {
    forall|i: int, j: int| 0 <= i < j < pairs.len() ==> pairs[i].0 != pairs[j].0
}

/// The map a sequence of key-value pairs stands for.
pub open spec fn pairs_map<K, V>(pairs: Seq<(K, V)>) -> Map<K, V>
    decreases pairs.len(),
{
    if pairs.len() == 0 {
        Map::empty()
    } else {
        pairs_map(pairs.drop_last()).insert(pairs.last().0, pairs.last().1)
    }
}

/// A key is in the map exactly when some pair holds it; with unique keys the
/// map gives that pair's value.
proof fn lemma_pairs_map_lookup<K, V>(pairs: Seq<(K, V)>, key: K)
    requires
        unique_keys(pairs),
    ensures
        pairs_map(pairs).contains_key(key) <==> exists|i: int| 0 <= i < pairs.len() && #[trigger] pairs[i].0 == key,
        forall|i: int| 0 <= i < pairs.len() && #[trigger] pairs[i].0 == key ==> pairs_map(pairs)[key] == pairs[i].1,
    decreases pairs.len(),
{
    if pairs.len() > 0 {
        let rest = pairs.drop_last();
        lemma_pairs_map_lookup(rest, key);
        assert forall|i: int| 0 <= i < rest.len() implies #[trigger] rest[i] == pairs[i] by {}
        if exists|i: int| 0 <= i < pairs.len() && #[trigger] pairs[i].0 == key {
            let i = choose|i: int| 0 <= i < pairs.len() && #[trigger] pairs[i].0 == key;
            if i < pairs.len() - 1 {
                assert(rest[i].0 == key);
            }
        }
        if exists|i: int| 0 <= i < rest.len() && #[trigger] rest[i].0 == key {
            let i = choose|i: int| 0 <= i < rest.len() && #[trigger] rest[i].0 == key;
            assert(pairs[i].0 == key);
        }
    }
}

/// Removing a pair removes its key from the map and keeps the keys unique.
proof fn lemma_pairs_map_remove<K, V>(pairs: Seq<(K, V)>, i: int)
    requires
        unique_keys(pairs),
        0 <= i < pairs.len(),
    ensures
        unique_keys(pairs.remove(i)),
        pairs_map(pairs.remove(i)) == pairs_map(pairs).remove(pairs[i].0),
    decreases pairs.len(),
{
    let removed = pairs.remove(i);
    assert forall|a: int, b: int| 0 <= a < b < removed.len() implies removed[a].0 != removed[b].0 by {
        let a2 = if a < i { a } else { a + 1 };
        let b2 = if b < i { b } else { b + 1 };
        assert(removed[a] == pairs[a2]);
        assert(removed[b] == pairs[b2]);
    }
    if i == pairs.len() - 1 {
        assert(removed =~= pairs.drop_last());
        lemma_pairs_map_lookup(pairs.drop_last(), pairs[i].0);
        assert forall|j: int| 0 <= j < pairs.drop_last().len() implies pairs.drop_last()[j].0 != pairs[i].0 by {
            assert(pairs.drop_last()[j] == pairs[j]);
        }
        assert(pairs_map(removed) =~= pairs_map(pairs).remove(pairs[i].0));
    } else {
        let rest = pairs.drop_last();
        assert forall|a: int, b: int| 0 <= a < b < rest.len() implies rest[a].0 != rest[b].0 by {
            assert(rest[a] == pairs[a]);
            assert(rest[b] == pairs[b]);
        }
        lemma_pairs_map_remove(rest, i);
        assert(rest[i] == pairs[i]);
        assert(removed.drop_last() =~= rest.remove(i));
        assert(removed.last() == pairs.last());
        assert(pairs.last().0 != pairs[i].0);
        assert(pairs_map(removed) =~= pairs_map(pairs).remove(pairs[i].0));
    }
}

/// Replacing the value of a pair replaces it in the map and keeps the keys unique.
proof fn lemma_pairs_map_update<K, V>(pairs: Seq<(K, V)>, i: int, value: V)
    requires
        unique_keys(pairs),
        0 <= i < pairs.len(),
    ensures
        unique_keys(pairs.update(i, (pairs[i].0, value))),
        pairs_map(pairs.update(i, (pairs[i].0, value))) == pairs_map(pairs).insert(pairs[i].0, value),
    decreases pairs.len(),
{
    let updated = pairs.update(i, (pairs[i].0, value));
    assert forall|a: int, b: int| 0 <= a < b < updated.len() implies updated[a].0 != updated[b].0 by {
        assert(updated[a].0 == pairs[a].0);
        assert(updated[b].0 == pairs[b].0);
    }
    let rest = pairs.drop_last();
    assert forall|a: int, b: int| 0 <= a < b < rest.len() implies rest[a].0 != rest[b].0 by {
        assert(rest[a] == pairs[a]);
        assert(rest[b] == pairs[b]);
    }
    if i == pairs.len() - 1 {
        assert(updated.drop_last() =~= rest);
        assert(pairs_map(updated) =~= pairs_map(pairs).insert(pairs[i].0, value));
    } else {
        lemma_pairs_map_update(rest, i, value);
        assert(rest[i] == pairs[i]);
        assert(updated.drop_last() =~= rest.update(i, (pairs[i].0, value)));
        assert(pairs.last().0 != pairs[i].0);
        assert(pairs_map(updated) =~= pairs_map(pairs).insert(pairs[i].0, value));
    }
}

/// Adding a pair with a new key adds it to the map and keeps the keys unique.
proof fn lemma_pairs_map_push<K, V>(pairs: Seq<(K, V)>, key: K, value: V)
    requires
        unique_keys(pairs),
        !pairs_map(pairs).contains_key(key),
    ensures
        unique_keys(pairs.push((key, value))),
        pairs_map(pairs.push((key, value))) == pairs_map(pairs).insert(key, value),
{
    lemma_pairs_map_lookup(pairs, key);
    let pushed = pairs.push((key, value));
    assert forall|a: int, b: int| 0 <= a < b < pushed.len() implies pushed[a].0 != pushed[b].0 by {
        assert(pushed[a] == pairs[a]);
        if b < pairs.len() {
            assert(pushed[b] == pairs[b]);
        }
    }
    assert(pushed.drop_last() =~= pairs);
}

/// A request to be told when the block of this height arrives.
#[derive(Clone, Copy, Debug, PartialEq, Eq, Hash, PartialOrd, Ord)]
pub struct WatchBlock(pub BlockNumber);

/// A request to be told when a block holding this transaction arrives.
#[derive(Clone, Copy, Debug, PartialEq, Eq, Hash, PartialOrd, Ord)]
pub struct WatchTxn {
    pub txn_hash: HashValue,
}

/// The callers waiting for the block of one height.
pub struct BlockWatch<R> {
    pub number: BlockNumber,
    pub responders: Vec<R>,
}

/// The caller waiting for one transaction.
pub struct TxnWatch<R> {
    pub txn_hash: HashValue,
    pub responder: R,
}

/// The outcome of asking to watch a transaction.
pub enum TxnWatchOutcome<R> {
    /// The caller now waits for the transaction.
    Watching,
    /// Another caller already waits for the transaction; this responder is
    /// handed back unused, and its caller is never answered.
    AlreadyWatched(R),
}

/// The callers waiting on the chain, by block height and by transaction.
pub struct ChainWatcher<R> {
    pub watched_blocks: Vec<BlockWatch<R>>,
    pub watched_txns: Vec<TxnWatch<R>>,
}

/// The callers answered when a block's transactions arrive, with what is left
/// waiting: going through the hashes in order, each watched one answers its
/// caller and stops being watched.
pub open spec fn answer_txns<R>(watching: Map<Seq<u8>, R>, hashes: Seq<Seq<u8>>) -> (Seq<R>, Map<Seq<u8>, R>)
    decreases hashes.len(),
{
    if hashes.len() == 0 {
        (Seq::empty(), watching)
    } else {
        let (answered, left) = answer_txns(watching, hashes.drop_last());
        let h = hashes.last();
        if left.contains_key(h) {
            (answered.push(left[h]), left.remove(h))
        } else {
            (answered, left)
        }
    }
}

/// The callers waiting for the block at `number` in a map of block watchers,
/// in the order they asked.
pub open spec fn watchers_at<R>(blocks: Map<BlockNumber, Seq<R>>, number: BlockNumber) -> Seq<R> {
    if blocks.contains_key(number) {
        blocks[number]
    } else {
        Seq::empty()
    }
}

/// All the responders held for blocks, entry by entry.
pub open spec fn block_responders<R>(entries: Seq<BlockWatch<R>>) -> Seq<R>
    decreases entries.len(),
{
    if entries.len() == 0 {
        Seq::empty()
    } else {
        block_responders(entries.drop_last()) + entries.last().responders@
    }
}

/// How many responders are held for blocks.
pub open spec fn block_responder_count<R>(entries: Seq<BlockWatch<R>>) -> nat
    decreases entries.len(),
{
    if entries.len() == 0 {
        0
    } else {
        block_responder_count(entries.drop_last()) + entries.last().responders@.len()
    }
}

/// Taking out the entry at `i` takes its responders out of the count.
proof fn lemma_count_remove<R>(entries: Seq<BlockWatch<R>>, i: int)
    requires
        0 <= i < entries.len(),
    ensures
        block_responder_count(entries.remove(i)) + entries[i].responders@.len() == block_responder_count(entries),
    decreases entries.len(),
{
    if i < entries.len() - 1 {
        let rest = entries.drop_last();
        lemma_count_remove(rest, i);
        assert(entries.remove(i).drop_last() =~= rest.remove(i));
        assert(rest[i] == entries[i]);
    } else {
        assert(entries.remove(i) =~= entries.drop_last());
    }
}

/// Putting an entry in at `i` adds its responders to the count.
proof fn lemma_count_insert<R>(entries: Seq<BlockWatch<R>>, i: int, entry: BlockWatch<R>)
    requires
        0 <= i <= entries.len(),
    ensures
        block_responder_count(entries.insert(i, entry)) == block_responder_count(entries) + entry.responders@.len(),
{
    let inserted = entries.insert(i, entry);
    assert(inserted.remove(i) =~= entries);
    lemma_count_remove(inserted, i);
}

/// The responders held for blocks, all together, are as many as the count says.
proof fn lemma_block_responders_len<R>(entries: Seq<BlockWatch<R>>)
    ensures
        block_responders(entries).len() == block_responder_count(entries),
    decreases entries.len(),
{
    if entries.len() > 0 {
        lemma_block_responders_len(entries.drop_last());
    }
}

/// The responders held for blocks, as a multiset.
pub open spec fn block_held<R>(entries: Seq<BlockWatch<R>>) -> Multiset<R>
    decreases entries.len(),
{
    if entries.len() == 0 {
        Multiset::empty()
    } else {
        block_held(entries.drop_last()).add(entries.last().responders@.to_multiset())
    }
}

/// The responders held for transactions, in entry order.
pub open spec fn txn_responders<R>(entries: Seq<TxnWatch<R>>) -> Seq<R> {
    entries.map_values(|w: TxnWatch<R>| w.responder)
}

/// Taking out the entry at `i` takes its responders out of the held ones.
proof fn lemma_block_held_remove<R>(entries: Seq<BlockWatch<R>>, i: int)
    requires
        0 <= i < entries.len(),
    ensures
        block_held(entries.remove(i)).add(entries[i].responders@.to_multiset()) =~= block_held(entries),
    decreases entries.len(),
{
    broadcast use vstd::multiset::group_multiset_axioms;
    if i < entries.len() - 1 {
        let rest = entries.drop_last();
        lemma_block_held_remove(rest, i);
        assert(entries.remove(i).drop_last() =~= rest.remove(i));
        assert(entries.remove(i).last() == entries.last());
        assert(rest[i] == entries[i]);
    } else {
        assert(entries.remove(i) =~= entries.drop_last());
    }
}

/// Putting an entry in at `i` adds its responders to the held ones.
proof fn lemma_block_held_insert<R>(entries: Seq<BlockWatch<R>>, i: int, entry: BlockWatch<R>)
    requires
        0 <= i <= entries.len(),
    ensures
        block_held(entries.insert(i, entry)) =~= block_held(entries).add(entry.responders@.to_multiset()),
{
    let inserted = entries.insert(i, entry);
    assert(inserted.remove(i) =~= entries);
    lemma_block_held_remove(inserted, i);
}

/// An empty sequence holds nothing.
proof fn lemma_empty_to_multiset<R>()
    ensures
        Seq::<R>::empty().to_multiset() =~= Multiset::<R>::empty(),
{
    vstd::seq_lib::to_multiset_len(Seq::<R>::empty());
    vstd::multiset::lemma_multiset_empty_len(Seq::<R>::empty().to_multiset());
}

/// The responders held for blocks, all together in entry order, make up the
/// held multiset.
proof fn lemma_block_held_is_responders<R>(entries: Seq<BlockWatch<R>>)
    ensures
        block_held(entries) =~= block_responders(entries).to_multiset(),
    decreases entries.len(),
{
    broadcast use vstd::multiset::group_multiset_axioms;
    if entries.len() > 0 {
        lemma_block_held_is_responders(entries.drop_last());
        vstd::seq_lib::lemma_multiset_commutative(block_responders(entries.drop_last()), entries.last().responders@);
    } else {
        assert(block_responders(entries) =~= Seq::<R>::empty());
        lemma_empty_to_multiset::<R>();
    }
}

impl<R> ChainWatcher<R> {
    /// The callers waiting, for blocks and for transactions together, each
    /// responder counted as often as it is held.
    pub open spec fn held(self) -> Multiset<R> {
        block_held(self.watched_blocks@).add(txn_responders(self.watched_txns@).to_multiset())
    }

    /// How many callers are waiting, for blocks and for transactions together.
    pub open spec fn waiting_count(self) -> nat {
        block_responder_count(self.watched_blocks@) + self.watched_txns@.len()
    }

    /// The block watches as (height, responders) pairs.
    pub open spec fn block_pairs(self) -> Seq<(BlockNumber, Seq<R>)> {
        self.watched_blocks@.map_values(|w: BlockWatch<R>| (w.number, w.responders@))
    }

    /// The transaction watches as (hash bytes, responder) pairs.
    pub open spec fn txn_pairs(self) -> Seq<(Seq<u8>, R)> {
        self.watched_txns@.map_values(|w: TxnWatch<R>| (w.txn_hash@, w.responder))
    }

    /// Who waits for which block height.
    pub open spec fn block_watchers(self) -> Map<BlockNumber, Seq<R>> {
        pairs_map(self.block_pairs())
    }

    /// Who waits for which transaction.
    pub open spec fn txn_watchers(self) -> Map<Seq<u8>, R> {
        pairs_map(self.txn_pairs())
    }

    /// The callers waiting for the block at `number`, in the order they asked.
    pub open spec fn watchers_of_block(self, number: BlockNumber) -> Seq<R> {
        watchers_at(self.block_watchers(), number)
    }

    /// Each height and each transaction has one entry.
    pub open spec fn well_formed(self) -> bool {
        unique_keys(self.block_pairs()) && unique_keys(self.txn_pairs())
    }

    /// A watcher with nobody waiting.
    pub fn new() -> (res: ChainWatcher<R>)
        ensures
            res.well_formed(),
            res.block_watchers() == Map::<BlockNumber, Seq<R>>::empty(),
            res.txn_watchers() == Map::<Seq<u8>, R>::empty(),
    {
        let res = ChainWatcher { watched_blocks: Vec::new(), watched_txns: Vec::new() };
        assert(res.block_pairs() =~= Seq::empty());
        assert(res.txn_pairs() =~= Seq::empty());
        res
    }

    fn find_block(&self, number: BlockNumber) -> (res: Option<usize>)
        ensures
            res matches Some(i) ==> i < self.watched_blocks@.len() && self.watched_blocks@[i as int].number == number,
            res is None ==> forall|i: int| 0 <= i < self.watched_blocks@.len() ==> #[trigger] self.watched_blocks@[i].number != number,
    {
        let mut i: usize = 0;
        while i < self.watched_blocks.len()
            invariant
                i <= self.watched_blocks@.len(),
                forall|j: int| 0 <= j < i ==> #[trigger] self.watched_blocks@[j].number != number,
            decreases self.watched_blocks@.len() - i,
        {
            if self.watched_blocks[i].number == number {
                return Some(i);
            }
            i = i + 1;
        }
        None
    }

    fn find_txn(&self, txn_hash: &HashValue) -> (res: Option<usize>)
        ensures
            res matches Some(i) ==> i < self.watched_txns@.len() && self.watched_txns@[i as int].txn_hash@ == txn_hash@,
            res is None ==> forall|i: int| 0 <= i < self.watched_txns@.len() ==> #[trigger] self.watched_txns@[i].txn_hash@ != txn_hash@,
    {
        let mut i: usize = 0;
        while i < self.watched_txns.len()
            invariant
                i <= self.watched_txns@.len(),
                forall|j: int| 0 <= j < i ==> #[trigger] self.watched_txns@[j].txn_hash@ != txn_hash@,
            decreases self.watched_txns@.len() - i,
        {
            if self.watched_txns[i].txn_hash.same_as(txn_hash) {
                return Some(i);
            }
            i = i + 1;
        }
        None
    }
}

impl<R> ChainWatcher<R> {
    /// Adds a caller waiting for the block at `number`, after those already waiting for it.
    pub fn watch_block(&mut self, number: BlockNumber, responder: R)
        requires
            old(self).well_formed(),
        ensures
            final(self).well_formed(),
            final(self).block_watchers() == old(self).block_watchers().insert(
                number,
                old(self).watchers_of_block(number).push(responder),
            ),
            final(self).watched_txns@ == old(self).watched_txns@,
            final(self).waiting_count() == old(self).waiting_count() + 1,
            final(self).held() == old(self).held().insert(responder),
            call_effect(*old(self), WatcherCall::WatchBlock(number, responder), *final(self), Seq::<R>::empty()),
    {
        broadcast use vstd::multiset::group_multiset_axioms, vstd::seq_lib::group_to_multiset_ensures;
        let ghost old_pairs = self.block_pairs();
        let ghost old_entries = self.watched_blocks@;
        proof {
            lemma_pairs_map_lookup(old_pairs, number);
        }
        match self.find_block(number) {
            Some(i) => {
                let mut entry = self.watched_blocks.remove(i);
                let ghost before = entry.responders@;
                entry.responders.push(responder);
                let ghost removed = self.watched_blocks@;
                self.watched_blocks.insert(i, entry);
                proof {
                    lemma_count_remove(old_entries, i as int);
                    lemma_count_insert(removed, i as int, self.watched_blocks@[i as int]);
                    lemma_block_held_remove(old_entries, i as int);
                    lemma_block_held_insert(removed, i as int, self.watched_blocks@[i as int]);
                    assert(self.held() =~= old(self).held().insert(responder));
                    assert(old_pairs[i as int].0 == number);
                    assert(self.block_pairs() =~= old_pairs.update(i as int, (number, before.push(responder))));
                    lemma_pairs_map_update(old_pairs, i as int, before.push(responder));
                }
            },
            None => {
                let mut responders: Vec<R> = Vec::new();
                responders.push(responder);
                self.watched_blocks.push(BlockWatch { number, responders });
                proof {
                    assert(self.watched_blocks@.drop_last() =~= old_entries);
                    assert(seq![responder] =~= Seq::<R>::empty().push(responder));
                    lemma_empty_to_multiset::<R>();
                    assert(self.held() =~= old(self).held().insert(responder));
                    assert forall|j: int| 0 <= j < old_pairs.len() implies #[trigger] old_pairs[j].0 != number by {
                        assert(old_pairs[j].0 == old(self).watched_blocks@[j].number);
                    }
                    assert(self.block_pairs() =~= old_pairs.push((number, seq![responder])));
                    lemma_pairs_map_push(old_pairs, number, seq![responder]);
                    assert(seq![responder] =~= Seq::<R>::empty().push(responder));
                }
            },
        }
    }

    /// Adds a caller waiting for the transaction `txn_hash`, unless one already
    /// waits for it: then the watcher is left as it was and the responder handed back.
    pub fn watch_txn(&mut self, txn_hash: HashValue, responder: R) -> (res: TxnWatchOutcome<R>)
        requires
            old(self).well_formed(),
        ensures
            final(self).well_formed(),
            final(self).watched_blocks@ == old(self).watched_blocks@,
            old(self).txn_watchers().contains_key(txn_hash@) ==> res == TxnWatchOutcome::AlreadyWatched(responder)
                && final(self).txn_watchers() == old(self).txn_watchers()
                && final(self).waiting_count() == old(self).waiting_count()
                && final(self).held() == old(self).held(),
            !old(self).txn_watchers().contains_key(txn_hash@) ==> res is Watching
                && final(self).txn_watchers() == old(self).txn_watchers().insert(txn_hash@, responder)
                && final(self).waiting_count() == old(self).waiting_count() + 1
                && final(self).held() == old(self).held().insert(responder),
            call_effect(*old(self), WatcherCall::WatchTxn(txn_hash, responder), *final(self), Seq::<R>::empty()),
    {
        broadcast use vstd::multiset::group_multiset_axioms, vstd::seq_lib::group_to_multiset_ensures;
        let ghost old_pairs = self.txn_pairs();
        proof {
            lemma_pairs_map_lookup(old_pairs, txn_hash@);
        }
        match self.find_txn(&txn_hash) {
            Some(i) => {
                assert(old_pairs[i as int].0 == txn_hash@);
                TxnWatchOutcome::AlreadyWatched(responder)
            },
            None => {
                self.watched_txns.push(TxnWatch { txn_hash, responder });
                proof {
                    assert forall|j: int| 0 <= j < old_pairs.len() implies #[trigger] old_pairs[j].0 != txn_hash@ by {
                        assert(old_pairs[j].0 == old(self).watched_txns@[j].txn_hash@);
                    }
                    assert(self.txn_pairs() =~= old_pairs.push((txn_hash@, responder)));
                    lemma_pairs_map_push(old_pairs, txn_hash@, responder);
                    assert(txn_responders(self.watched_txns@) =~= txn_responders(old(self).watched_txns@).push(responder));
                    assert(self.held() =~= old(self).held().insert(responder));
                }
                TxnWatchOutcome::Watching
            },
        }
    }

    /// A block at `number` holding the transactions `txn_hashes` arrived. Hands
    /// back the callers it answers: first those waiting for its height, in the
    /// order they asked, then those waiting for its transactions, in the order
    /// the block lists them. The answered callers stop waiting.
    pub fn block_arrived(&mut self, number: BlockNumber, txn_hashes: &Vec<HashValue>) -> (res: Vec<R>)
        requires
            old(self).well_formed(),
        ensures
            final(self).well_formed(),
            res@ == old(self).watchers_of_block(number)
                + answer_txns(old(self).txn_watchers(), txn_hashes@.map_values(|h: HashValue| h@)).0,
            final(self).block_watchers() == old(self).block_watchers().remove(number),
            final(self).txn_watchers() == answer_txns(old(self).txn_watchers(), txn_hashes@.map_values(|h: HashValue| h@)).1,
            final(self).waiting_count() + res@.len() == old(self).waiting_count(),
            final(self).held().add(res@.to_multiset()) == old(self).held(),
            call_effect(*old(self), WatcherCall::BlockArrived(number, *txn_hashes), *final(self), res@),
    {
        broadcast use vstd::multiset::group_multiset_axioms, vstd::seq_lib::group_to_multiset_ensures;
        let ghost old_pairs = self.block_pairs();
        let ghost old_entries = self.watched_blocks@;
        proof {
            lemma_pairs_map_lookup(old_pairs, number);
        }
        let mut answered: Vec<R> = match self.find_block(number) {
            Some(i) => {
                let entry = self.watched_blocks.remove(i);
                proof {
                    lemma_count_remove(old_entries, i as int);
                    lemma_block_held_remove(old_entries, i as int);
                    assert(self.held().add(entry.responders@.to_multiset()) =~= old(self).held());
                    assert(old_pairs[i as int].0 == number);
                    assert(self.block_pairs() =~= old_pairs.remove(i as int));
                    lemma_pairs_map_remove(old_pairs, i as int);
                }
                entry.responders
            },
            None => {
                proof {
                    assert forall|j: int| 0 <= j < old_pairs.len() implies #[trigger] old_pairs[j].0 != number by {
                        assert(old_pairs[j].0 == old(self).watched_blocks@[j].number);
                    }
                }
                proof {
                    lemma_empty_to_multiset::<R>();
                    assert(self.held().add(Seq::<R>::empty().to_multiset()) =~= old(self).held());
                }
                Vec::new()
            },
        };
        assert(self.block_watchers() =~= old(self).block_watchers().remove(number));
        let ghost hashes = txn_hashes@.map_values(|h: HashValue| h@);
        let ghost start = self.txn_watchers();
        let ghost from_block = answered@;
        let mut k: usize = 0;
        while k < txn_hashes.len()
            invariant
                k <= txn_hashes@.len(),
                hashes == txn_hashes@.map_values(|h: HashValue| h@),
                unique_keys(self.txn_pairs()),
                unique_keys(self.block_pairs()),
                self.block_watchers() == old(self).block_watchers().remove(number),
                answered@ == from_block + answer_txns(start, hashes.take(k as int)).0,
                self.txn_watchers() == answer_txns(start, hashes.take(k as int)).1,
                self.waiting_count() + answered@.len() == old(self).waiting_count(),
                self.held().add(answered@.to_multiset()) == old(self).held(),
            decreases txn_hashes@.len() - k,
        {
            let ghost pairs = self.txn_pairs();
            let ghost h = txn_hashes@[k as int]@;
            proof {
                lemma_pairs_map_lookup(pairs, h);
                assert(hashes.take(k as int + 1).drop_last() =~= hashes.take(k as int));
                assert(hashes.take(k as int + 1).last() == h);
            }
            match self.find_txn(&txn_hashes[k]) {
                Some(j) => {
                    let ghost before_txns = txn_responders(self.watched_txns@);
                    let ghost held_before = self.held();
                    let entry = self.watched_txns.remove(j);
                    proof {
                        assert(pairs[j as int].0 == h);
                        assert(self.txn_pairs() =~= pairs.remove(j as int));
                        lemma_pairs_map_remove(pairs, j as int);
                    }
                    let ghost before_answered = answered@;
                    answered.push(entry.responder);
                    proof {
                        assert(txn_responders(self.watched_txns@) =~= before_txns.remove(j as int));
                        assert(before_txns[j as int] == entry.responder);
                        assert(before_txns.remove(j as int).insert(j as int, entry.responder) =~= before_txns);
                        vstd::seq_lib::to_multiset_insert(before_txns.remove(j as int), j as int, entry.responder);
                        assert(before_txns.to_multiset() =~= txn_responders(self.watched_txns@).to_multiset().insert(entry.responder));
                        assert(self.held().insert(entry.responder) =~= held_before);
                        assert(answered@ =~= before_answered.push(entry.responder));
                        vstd::seq_lib::to_multiset_build(before_answered, entry.responder);
                        assert(answered@.to_multiset() =~= before_answered.to_multiset().insert(entry.responder));
                        assert(self.held().add(answered@.to_multiset()) =~= old(self).held());
                    }
                },
                None => {
                    proof {
                        assert forall|j: int| 0 <= j < pairs.len() implies #[trigger] pairs[j].0 != h by {
                            assert(pairs[j].0 == self.watched_txns@[j].txn_hash@);
                        }
                    }
                },
            }
            k = k + 1;
        }
        assert(hashes.take(txn_hashes@.len() as int) =~= hashes);
        answered
    }

    /// The subscription failed: every caller still waiting is handed back, those
    /// waiting for blocks first, and nobody is left waiting.
    pub fn subscription_failed(&mut self) -> (res: Vec<R>)
        requires
            old(self).well_formed(),
        ensures
            final(self).well_formed(),
            res@ == block_responders(old(self).watched_blocks@)
                + old(self).watched_txns@.map_values(|w: TxnWatch<R>| w.responder),
            final(self).block_watchers() == Map::<BlockNumber, Seq<R>>::empty(),
            final(self).txn_watchers() == Map::<Seq<u8>, R>::empty(),
            res@.len() == old(self).waiting_count(),
            final(self).waiting_count() == 0,
            res@.to_multiset() == old(self).held(),
            final(self).held() == Multiset::<R>::empty(),
            call_effect(*old(self), WatcherCall::SubscriptionFailed, *final(self), res@),
    {
        broadcast use vstd::multiset::group_multiset_axioms;
        proof {
            lemma_block_responders_len(self.watched_blocks@);
            lemma_block_held_is_responders(self.watched_blocks@);
            vstd::seq_lib::lemma_multiset_commutative(
                block_responders(self.watched_blocks@),
                txn_responders(self.watched_txns@),
            );
        }
        let mut blocks: Vec<BlockWatch<R>> = Vec::new();
        let mut txns: Vec<TxnWatch<R>> = Vec::new();
        std::mem::swap(&mut blocks, &mut self.watched_blocks);
        std::mem::swap(&mut txns, &mut self.watched_txns);
        let ghost all_blocks = blocks@;
        let ghost all_txns = txns@;
        let mut answered: Vec<R> = Vec::new();
        for entry in it: blocks.into_iter()
            invariant
                it.seq() == all_blocks,
                answered@ == block_responders(all_blocks.take(it.index() as int)),
        {
            proof {
                assert(all_blocks.take(it.index() as int + 1).drop_last() =~= all_blocks.take(it.index() as int));
            }
            let mut responders = entry.responders;
            answered.append(&mut responders);
        }
        assert(all_blocks.take(all_blocks.len() as int) =~= all_blocks);
        let ghost from_blocks = answered@;
        for entry in it: txns.into_iter()
            invariant
                it.seq() == all_txns,
                answered@ == from_blocks + all_txns.take(it.index() as int).map_values(|w: TxnWatch<R>| w.responder),
        {
            proof {
                assert(all_txns.take(it.index() as int + 1).map_values(|w: TxnWatch<R>| w.responder)
                    =~= all_txns.take(it.index() as int).map_values(|w: TxnWatch<R>| w.responder).push(entry.responder));
            }
            answered.push(entry.responder);
        }
        assert(all_txns.take(all_txns.len() as int) =~= all_txns);
        assert(self.block_pairs() =~= Seq::empty());
        assert(self.txn_pairs() =~= Seq::empty());
        proof {
            lemma_empty_to_multiset::<R>();
            assert(txn_responders(self.watched_txns@) =~= Seq::<R>::empty());
            assert(all_txns.map_values(|w: TxnWatch<R>| w.responder) == txn_responders(all_txns));
            assert(self.held() =~= Multiset::<R>::empty());
        }
        answered
    }
}

/// Going through a block's transactions answers each watched one exactly at its
/// first appearance: a watched transaction the block lists is answered, one it
/// does not list keeps waiting with the same caller, and no other caller is added.
proof fn lemma_answer_txns<R>(watching: Map<Seq<u8>, R>, hashes: Seq<Seq<u8>>, h: Seq<u8>)
    ensures
        watching.contains_key(h) && hashes.contains(h) ==> answer_txns(watching, hashes).0.contains(watching[h]),
        answer_txns(watching, hashes).1.contains_key(h) <==> (watching.contains_key(h) && !hashes.contains(h)),
        answer_txns(watching, hashes).1.contains_key(h) ==> answer_txns(watching, hashes).1[h] == watching[h],
    decreases hashes.len(),
{
    if hashes.len() > 0 {
        let rest = hashes.drop_last();
        lemma_answer_txns(watching, rest, h);
        let x = hashes.last();
        let (answered, left) = answer_txns(watching, rest);
        assert(hashes =~= rest.push(x));
        assert(hashes.contains(h) <==> (rest.contains(h) || x == h)) by {
            if hashes.contains(h) {
                let i = choose|i: int| 0 <= i < hashes.len() && hashes[i] == h;
                if i < rest.len() {
                    assert(rest[i] == h);
                }
            }
            if rest.contains(h) {
                let i = choose|i: int| 0 <= i < rest.len() && rest[i] == h;
                assert(hashes[i] == h);
            }
            if x == h {
                assert(hashes[hashes.len() - 1] == h);
            }
        }
        if watching.contains_key(h) && rest.contains(h) {
            let i = choose|i: int| 0 <= i < answered.len() && answered[i] == watching[h];
            if left.contains_key(x) {
                assert(answered.push(left[x])[i] == watching[h]);
            }
        }
        if watching.contains_key(h) && !rest.contains(h) && x == h {
            assert(answered.push(left[x])[answered.len() as int] == watching[h]);
        }
    }
}

/// A caller that waits for a block height is answered when a block of that
/// height arrives, whatever transactions it holds.
pub proof fn lemma_block_watcher_answered<R>(
    blocks: Map<BlockNumber, Seq<R>>,
    txns: Map<Seq<u8>, R>,
    number: BlockNumber,
    responder: R,
    hashes: Seq<Seq<u8>>,
)
    ensures
        ({
            let watched = blocks.insert(number, watchers_at(blocks, number).push(responder));
            (watchers_at(watched, number) + answer_txns(txns, hashes).0).contains(responder)
        }),
{
    let watched = blocks.insert(number, watchers_at(blocks, number).push(responder));
    let waiting = watchers_at(blocks, number).push(responder);
    assert(watchers_at(watched, number) == waiting);
    assert((waiting + answer_txns(txns, hashes).0)[waiting.len() - 1] == responder);
}

/// A caller that starts waiting for a transaction nobody waited for is answered
/// when a block listing that transaction arrives, whatever its height.
pub proof fn lemma_txn_watcher_answered<R>(
    blocks: Map<BlockNumber, Seq<R>>,
    txns: Map<Seq<u8>, R>,
    txn_hash: Seq<u8>,
    responder: R,
    number: BlockNumber,
    hashes: Seq<Seq<u8>>,
)
    requires
        !txns.contains_key(txn_hash),
        hashes.contains(txn_hash),
    ensures
        (watchers_at(blocks, number) + answer_txns(txns.insert(txn_hash, responder), hashes).0).contains(responder),
{
    let watching = txns.insert(txn_hash, responder);
    lemma_answer_txns(watching, hashes, txn_hash);
    let answered = answer_txns(watching, hashes).0;
    let i = choose|i: int| 0 <= i < answered.len() && answered[i] == responder;
    let front = watchers_at(blocks, number);
    assert((front + answered)[front.len() + i] == responder);
}

/// When a block arrives, the callers waiting for its transactions stop
/// waiting, while those waiting for other transactions keep waiting as they were.
pub proof fn lemma_answered_txns_stop_waiting<R>(txns: Map<Seq<u8>, R>, hashes: Seq<Seq<u8>>, h: Seq<u8>)
    ensures
        hashes.contains(h) ==> !answer_txns(txns, hashes).1.contains_key(h),
        !hashes.contains(h) && txns.contains_key(h) ==> answer_txns(txns, hashes).1.contains_key(h)
            && answer_txns(txns, hashes).1[h] == txns[h],
        !txns.contains_key(h) ==> !answer_txns(txns, hashes).1.contains_key(h),
{
    lemma_answer_txns(txns, hashes, h);
}

/// A call made on a watcher: a caller asks to be told of a block height or of
/// a transaction, a block arrives, or the subscription fails.
pub enum WatcherCall<R> {
    WatchBlock(BlockNumber, R),
    WatchTxn(HashValue, R),
    BlockArrived(BlockNumber, Vec<HashValue>),
    SubscriptionFailed,
}

/// The height of the block a call reports (zero for other calls).
pub open spec fn arrived_number<R>(call: WatcherCall<R>) -> BlockNumber {
    match call {
        WatcherCall::BlockArrived(number, _) => number,
        _ => 0,
    }
}

/// The transaction hashes of the block a call reports (none for other calls).
pub open spec fn arrived_hashes<R>(call: WatcherCall<R>) -> Seq<Seq<u8>> {
    match call {
        WatcherCall::BlockArrived(_, hashes) => hashes_view(hashes@),
        _ => Seq::empty(),
    }
}

/// The bytes of each hash, in order.
pub open spec fn hashes_view(hashes: Seq<HashValue>) -> Seq<Seq<u8>> {
    hashes.map_values(|h: HashValue| h@)
}

/// What a call does: the watcher after it, given the one before it and the
/// callers the call answered (for the call handling that event; see
/// [`ChainWatcher::watch_block`], [`ChainWatcher::watch_txn`],
/// [`ChainWatcher::block_arrived`] and [`ChainWatcher::subscription_failed`]).
pub open spec fn call_effect<R>(
    before: ChainWatcher<R>,
    call: WatcherCall<R>,
    after: ChainWatcher<R>,
    answered: Seq<R>,
) -> bool {
    &&& after.well_formed()
    &&& match call {
        WatcherCall::WatchBlock(number, responder) => {
            &&& answered.len() == 0
            &&& after.block_watchers() == before.block_watchers().insert(
                number,
                before.watchers_of_block(number).push(responder),
            )
            &&& after.txn_watchers() == before.txn_watchers()
            &&& after.held() == before.held().insert(responder)
        },
        WatcherCall::WatchTxn(txn_hash, responder) => {
            &&& answered.len() == 0
            &&& after.block_watchers() == before.block_watchers()
            &&& if before.txn_watchers().contains_key(txn_hash@) {
                after.txn_watchers() == before.txn_watchers() && after.held() == before.held()
            } else {
                after.txn_watchers() == before.txn_watchers().insert(txn_hash@, responder)
                    && after.held() == before.held().insert(responder)
            }
        },
        WatcherCall::BlockArrived(number, hashes) => {
            &&& answered == before.watchers_of_block(number) + answer_txns(
                before.txn_watchers(),
                hashes_view(hashes@),
            ).0
            &&& after.block_watchers() == before.block_watchers().remove(number)
            &&& after.txn_watchers() == answer_txns(before.txn_watchers(), hashes_view(hashes@)).1
            &&& after.held().add(answered.to_multiset()) == before.held()
        },
        WatcherCall::SubscriptionFailed => {
            &&& answered.to_multiset() == before.held()
            &&& after.block_watchers() == Map::<BlockNumber, Seq<R>>::empty()
            &&& after.txn_watchers() == Map::<Seq<u8>, R>::empty()
            &&& after.held() == Multiset::<R>::empty()
        },
    }
}

/// The responders a call adds to those waiting: the caller of a watch, unless
/// another caller already waits for the same transaction.
pub open spec fn accepted<R>(before: ChainWatcher<R>, call: WatcherCall<R>) -> Multiset<R> {
    match call {
        WatcherCall::WatchBlock(_, responder) => Multiset::singleton(responder),
        WatcherCall::WatchTxn(txn_hash, responder) => if before.txn_watchers().contains_key(txn_hash@) {
            Multiset::empty()
        } else {
            Multiset::singleton(responder)
        },
        _ => Multiset::empty(),
    }
}

/// All the callers answered over a run of calls.
pub open spec fn total_answered<R>(answers: Seq<Seq<R>>) -> Multiset<R>
    decreases answers.len(),
{
    if answers.len() == 0 {
        Multiset::empty()
    } else {
        total_answered(answers.drop_last()).add(answers.last().to_multiset())
    }
}

/// All the callers that started waiting over a run of calls, `trace[i]` being
/// the watcher before `calls[i]`.
pub open spec fn total_accepted<R>(trace: Seq<ChainWatcher<R>>, calls: Seq<WatcherCall<R>>) -> Multiset<R>
    decreases calls.len(),
{
    if calls.len() == 0 {
        Multiset::empty()
    } else {
        total_accepted(trace, calls.drop_last()).add(accepted(trace[calls.len() - 1], calls.last()))
    }
}

/// The caller that a call asks to be told, if it is a watch.
pub open spec fn call_responder<R>(call: WatcherCall<R>) -> Option<R> {
    match call {
        WatcherCall::WatchBlock(_, responder) => Some(responder),
        WatcherCall::WatchTxn(_, responder) => Some(responder),
        _ => None,
    }
}

/// How many of a run's calls are watches made by `caller`.
pub open spec fn watches_by<R>(calls: Seq<WatcherCall<R>>, caller: R) -> nat
    decreases calls.len(),
{
    if calls.len() == 0 {
        0
    } else {
        watches_by(calls.drop_last(), caller) + if call_responder(calls.last()) == Some(caller) {
            1nat
        } else {
            0nat
        }
    }
}

/// Over any run of calls on a watcher, `trace[i]` being the watcher before
/// `calls[i]` and `answers[i]` the callers that call answered:
/// - every caller that started waiting is either answered or still waiting,
///   and nobody else is answered; so a caller that starts waiting once (in
///   particular, one that makes a single watch call) is answered at most once;
/// - a caller waiting for a block height is answered by the call in which a
///   block of that height arrives, and one waiting for a transaction by the
///   call in which a block listing it arrives; in that same call the height and
///   the transactions of the block stop being watched;
/// - when the subscription fails, every waiting caller is answered in that
///   call and none is left waiting.
pub proof fn lemma_watcher_answers_each_caller_once<R>(
    trace: Seq<ChainWatcher<R>>,
    calls: Seq<WatcherCall<R>>,
    answers: Seq<Seq<R>>,
    caller: R,
)
    requires
        trace.len() == calls.len() + 1,
        answers.len() == calls.len(),
        forall|i: int| 0 <= i < calls.len() ==> call_effect(trace[i], #[trigger] calls[i], trace[i + 1], answers[i]),
    ensures
        total_answered(answers).add(trace.last().held()) == trace[0].held().add(total_accepted(trace, calls)),
        trace[0].held().count(caller) == 0 && total_accepted(trace, calls).count(caller) <= 1
            ==> total_answered(answers).count(caller) <= 1,
        total_accepted(trace, calls).count(caller) <= watches_by(calls, caller),
        trace[0].held().count(caller) == 0 && watches_by(calls, caller) <= 1
            ==> total_answered(answers).count(caller) <= 1,
        forall|i: int| 0 <= i < calls.len() ==>
            trace[i + 1].held().count(caller) + answers[i].to_multiset().count(caller)
                == trace[i].held().count(caller) + accepted(trace[i], #[trigger] calls[i]).count(caller),
        forall|i: int| 0 <= i < calls.len() && (#[trigger] calls[i]) is BlockArrived
            && trace[i].watchers_of_block(arrived_number(calls[i])).contains(caller) ==> answers[i].contains(caller),
        forall|i: int, h: Seq<u8>| 0 <= i < calls.len() && (#[trigger] calls[i]) is BlockArrived
            && arrived_hashes(calls[i]).contains(h) && #[trigger] trace[i].txn_watchers().contains_key(h)
            && trace[i].txn_watchers()[h] == caller ==> answers[i].contains(caller),
        forall|i: int, h: Seq<u8>| 0 <= i < calls.len() && (#[trigger] calls[i]) is BlockArrived
            && arrived_hashes(calls[i]).contains(h) ==> !trace[i + 1].block_watchers().contains_key(arrived_number(calls[i]))
                && !#[trigger] trace[i + 1].txn_watchers().contains_key(h),
        forall|i: int| 0 <= i < calls.len() && (#[trigger] calls[i]) is SubscriptionFailed ==>
            answers[i].to_multiset().count(caller) == trace[i].held().count(caller)
                && trace[i + 1].held().count(caller) == 0,
    decreases calls.len(),
{
    broadcast use vstd::multiset::group_multiset_axioms, vstd::seq_lib::group_to_multiset_ensures;
    if calls.len() > 0 {
        let k = calls.len() - 1;
        let front = trace.drop_last();
        assert forall|i: int| 0 <= i < calls.drop_last().len() implies call_effect(front[i], #[trigger] calls.drop_last()[i], front[i + 1], answers.drop_last()[i]) by {
            assert(calls.drop_last()[i] == calls[i]);
            assert(front[i] == trace[i] && front[i + 1] == trace[i + 1]);
            assert(answers.drop_last()[i] == answers[i]);
        }
        lemma_watcher_answers_each_caller_once(front, calls.drop_last(), answers.drop_last(), caller);
        assert(total_accepted(front, calls.drop_last()) =~= total_accepted(trace, calls.drop_last())) by {
            lemma_total_accepted_prefix(front, trace, calls.drop_last());
        }
        assert(call_effect(trace[k], calls[k], trace[k + 1], answers[k]));
        lemma_step_conserves(trace[k], calls[k], trace[k + 1], answers[k]);
        assert(front.last() == trace[k]);
        assert(front[0] == trace[0]);
        assert(trace.last() == trace[k + 1]);
        assert(calls.last() == calls[k]);
        assert(answers.last() == answers[k]);
        assert(total_answered(answers) =~= total_answered(answers.drop_last()).add(answers[k].to_multiset()));
        assert(total_accepted(trace, calls) =~= total_accepted(trace, calls.drop_last()).add(accepted(trace[k], calls[k])));
        let prev_answered = total_answered(answers.drop_last());
        let prev_accepted = total_accepted(trace, calls.drop_last());
        assert(prev_answered.add(trace[k].held()) == trace[0].held().add(prev_accepted));
        assert(trace[k + 1].held().add(answers[k].to_multiset()) =~= trace[k].held().add(accepted(trace[k], calls[k])));
        assert forall|v: R| #[trigger] total_answered(answers).add(trace.last().held()).count(v)
            == trace[0].held().add(total_accepted(trace, calls)).count(v) by {
            assert(prev_answered.add(trace[k].held()).count(v) == trace[0].held().add(prev_accepted).count(v));
            assert(trace[k + 1].held().add(answers[k].to_multiset()).count(v)
                == trace[k].held().add(accepted(trace[k], calls[k])).count(v));
        }
        assert(total_answered(answers).add(trace.last().held()) =~= trace[0].held().add(total_accepted(trace, calls)));
    } else {
        assert(total_answered(answers) =~= Multiset::<R>::empty());
        assert(total_accepted(trace, calls) =~= Multiset::<R>::empty());
        assert(total_answered(answers).add(trace.last().held()) =~= trace[0].held().add(total_accepted(trace, calls)));
    }
    lemma_accepted_at_most_watches(trace, calls, caller);
    assert(total_answered(answers).add(trace.last().held()).count(caller)
        == total_answered(answers).count(caller) + trace.last().held().count(caller));
    assert(trace[0].held().add(total_accepted(trace, calls)).count(caller)
        == trace[0].held().count(caller) + total_accepted(trace, calls).count(caller));
    assert forall|i: int| 0 <= i < calls.len() implies
        trace[i + 1].held().count(caller) + answers[i].to_multiset().count(caller)
            == trace[i].held().count(caller) + accepted(trace[i], #[trigger] calls[i]).count(caller) by {
        lemma_step_conserves(trace[i], calls[i], trace[i + 1], answers[i]);
    }
    assert forall|i: int| 0 <= i < calls.len() && (#[trigger] calls[i]) is BlockArrived
        && trace[i].watchers_of_block(arrived_number(calls[i])).contains(caller) implies answers[i].contains(caller) by {
        if let WatcherCall::BlockArrived(number, hashes) = calls[i] {
            let front = trace[i].watchers_of_block(number);
            let j = choose|j: int| 0 <= j < front.len() && front[j] == caller;
            assert(answers[i][j] == caller);
        }
    }
    assert forall|i: int, h: Seq<u8>| 0 <= i < calls.len() && (#[trigger] calls[i]) is BlockArrived
        && arrived_hashes(calls[i]).contains(h) && #[trigger] trace[i].txn_watchers().contains_key(h)
        && trace[i].txn_watchers()[h] == caller implies answers[i].contains(caller) by {
        if let WatcherCall::BlockArrived(number, hashes) = calls[i] {
            lemma_answer_txns(trace[i].txn_watchers(), hashes_view(hashes@), h);
            let front = trace[i].watchers_of_block(number);
            let back = answer_txns(trace[i].txn_watchers(), hashes_view(hashes@)).0;
            let j = choose|j: int| 0 <= j < back.len() && back[j] == caller;
            assert(answers[i][front.len() + j] == caller);
        }
    }
    assert forall|i: int, h: Seq<u8>| 0 <= i < calls.len() && (#[trigger] calls[i]) is BlockArrived
        && arrived_hashes(calls[i]).contains(h) implies !trace[i + 1].block_watchers().contains_key(arrived_number(calls[i]))
            && !#[trigger] trace[i + 1].txn_watchers().contains_key(h) by {
        if let WatcherCall::BlockArrived(number, hashes) = calls[i] {
            lemma_answer_txns(trace[i].txn_watchers(), hashes_view(hashes@), h);
        }
    }
}

/// A call keeps every caller accounted for: those waiting after it and those
/// it answered are those waiting before it and those it added.
proof fn lemma_step_conserves<R>(before: ChainWatcher<R>, call: WatcherCall<R>, after: ChainWatcher<R>, answered: Seq<R>)
    requires
        call_effect(before, call, after, answered),
    ensures
        after.held().add(answered.to_multiset()) =~= before.held().add(accepted(before, call)),
{
    broadcast use vstd::multiset::group_multiset_axioms, vstd::seq_lib::group_to_multiset_ensures;
    lemma_empty_to_multiset::<R>();
    match call {
        WatcherCall::WatchBlock(_, _) => {
            assert(answered =~= Seq::<R>::empty());
        },
        WatcherCall::WatchTxn(_, _) => {
            assert(answered =~= Seq::<R>::empty());
        },
        _ => {},
    }
}

/// A run accepts a caller no more often than the caller asks to watch.
proof fn lemma_accepted_at_most_watches<R>(trace: Seq<ChainWatcher<R>>, calls: Seq<WatcherCall<R>>, caller: R)
    ensures
        total_accepted(trace, calls).count(caller) <= watches_by(calls, caller),
    decreases calls.len(),
{
    broadcast use vstd::multiset::group_multiset_axioms;
    if calls.len() > 0 {
        lemma_accepted_at_most_watches(trace, calls.drop_last(), caller);
        let k = calls.len() - 1;
        assert(accepted(trace[k], calls.last()).count(caller) <= if call_responder(calls.last()) == Some(caller) {
            1nat
        } else {
            0nat
        });
    }
}

/// What a run of calls accepted depends only on the watchers before each call.
proof fn lemma_total_accepted_prefix<R>(a: Seq<ChainWatcher<R>>, b: Seq<ChainWatcher<R>>, calls: Seq<WatcherCall<R>>)
    requires
        a.len() >= calls.len(),
        b.len() >= calls.len(),
        forall|i: int| 0 <= i < calls.len() ==> a[i] == b[i],
    ensures
        total_accepted(a, calls) == total_accepted(b, calls),
    decreases calls.len(),
{
    if calls.len() > 0 {
        lemma_total_accepted_prefix(a, b, calls.drop_last());
    }
}

} // verus!
