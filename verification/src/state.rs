use vstd::prelude::*;

use crate::json;
use crate::node::{BitcoindError, ResponseBlock, ResponseBlockchainInfo, ResponseRawMempoolTransaction};

verus! {

/// The window never holds fewer blocks than this once initialized.
pub const APP_BLOCKS_MINIMUM: usize = 6;

/// Upper bound of the pacing delay between quiet iterations.
pub const UPDATE_DELAY_MAX_MS: u64 = 25;

/// Lower bound of the pacing delay: even a late iteration yields this long.
pub const UPDATE_DELAY_MIN_MS: u64 = 5;

/// How often a mempool summary is due.
pub const UPDATE_MEMPOOL_LOG_INTERVAL_MS: u64 = 30000;

/// The engine's terminal errors, plus the node client's.
#[derive(Debug, Clone, PartialEq)]
pub enum AppError {
    Bitcoind(BitcoindError),
    NotEnoughBlocks,
    InvalidBlockchain,
}

/// A confirmed block as the engine keeps it: header fields plus the hashes
/// of the transactions it confirmed.
#[derive(Debug, Clone, PartialEq)]
pub struct StateBlock {
    pub height: u32,
    pub hash: String,
    pub prevhash: Option<String>,
    pub transactions: Vec<String>,
}

/// `next` extends `prev`: consecutive heights, and `next` names `prev` as
/// its parent.
pub open spec fn links(prev: StateBlock, next: StateBlock) -> bool {
    &&& next.height == prev.height + 1
    &&& next.prevhash is Some
    &&& next.prevhash->0@ == prev.hash@
}

impl StateBlock {
    /// Convert a node block response, keeping only the transaction hashes.
    pub fn from_response(block: ResponseBlock) -> (r: StateBlock)
        ensures
            r.height == block.height,
            r.hash@ == block.hash@,
            (match (r.prevhash, block.previousblockhash) {
                (Some(p), Some(q)) => p@ == q@,
                (None, None) => true,
                _ => false,
            }),
            r.transactions@.len() == block.transactions@.len(),
            forall|i: int|
                0 <= i < block.transactions@.len() ==> (#[trigger] r.transactions@[i])@
                    == block.transactions@[i].hash@,
    {
        let mut transactions: Vec<String> = Vec::new();
        let mut idx: usize = 0;
        while idx < block.transactions.len()
            invariant
                idx <= block.transactions@.len(),
                transactions@.len() == idx,
                forall|i: int|
                    0 <= i < idx ==> (#[trigger] transactions@[i])@
                        == block.transactions@[i].hash@,
            decreases block.transactions@.len() - idx,
        {
            transactions.push(block.transactions[idx].hash.clone());
            idx = idx + 1;
        }
        StateBlock {
            height: block.height,
            hash: block.hash,
            prevhash: block.previousblockhash,
            transactions,
        }
    }
}

/// One cached mempool entry: the transaction's virtual size.
#[derive(Debug, Clone, Copy, PartialEq)]
pub struct StateTransaction {
    pub size: u32,
}

impl From<ResponseRawMempoolTransaction> for StateTransaction {
    fn from(tx: ResponseRawMempoolTransaction) -> (r: StateTransaction) {
        StateTransaction { size: tx.size }
    }
}

impl vstd::std_specs::convert::FromSpecImpl<ResponseRawMempoolTransaction> for StateTransaction {
    open spec fn obeys_from_spec() -> bool {
        true
    }

    open spec fn from_spec(tx: ResponseRawMempoolTransaction) -> StateTransaction {
        StateTransaction { size: tx.size }
    }
}

/// The mathematical content of a mempool entry list: the map from
/// transaction hash to virtual size. A later entry wins, though under
/// `mp_unique` keys never repeat.
pub open spec fn mp_map(s: Seq<(String, StateTransaction)>) -> Map<Seq<char>, u32>
    decreases s.len(),
{
    if s.len() == 0 {
        Map::empty()
    } else {
        mp_map(s.drop_last()).insert(s.last().0@, s.last().1.size)
    }
}

/// No two entries share a key.
pub open spec fn mp_unique(s: Seq<(String, StateTransaction)>) -> bool {
    forall|i: int, j: int|
        0 <= i && i < j && j < s.len() ==> (#[trigger] s[i]).0@ != (#[trigger] s[j]).0@
}

/// Some entry of `s` carries the key `k`.
pub open spec fn has_key(s: Seq<(String, StateTransaction)>, k: Seq<char>) -> bool {
    exists|i: int| 0 <= i < s.len() && (#[trigger] s[i]).0@ == k
}

/// The domain of `mp_map` is exactly the keys occurring in the list.
pub proof fn lemma_mp_map_dom(s: Seq<(String, StateTransaction)>)
    ensures
        forall|k: Seq<char>| #[trigger] mp_map(s).dom().contains(k) <==> has_key(s, k),
    decreases s.len(),
{
    if s.len() > 0 {
        lemma_mp_map_dom(s.drop_last());
        assert forall|k: Seq<char>| #[trigger] mp_map(s).dom().contains(k) <==> has_key(
            s,
            k,
        ) by {
            if mp_map(s).dom().contains(k) {
                if k == s.last().0@ {
                    assert((s[s.len() - 1]).0@ == k);
                } else {
                    assert(mp_map(s.drop_last()).dom().contains(k));
                    assert(has_key(s.drop_last(), k));
                    let i = choose|i: int|
                        0 <= i < s.drop_last().len() && (#[trigger] s.drop_last()[i]).0@ == k;
                    assert((s[i]).0@ == k);
                }
            }
            if has_key(s, k) {
                let i = choose|i: int| 0 <= i < s.len() && (#[trigger] s[i]).0@ == k;
                if i < s.len() - 1 {
                    assert((s.drop_last()[i]).0@ == k);
                    assert(has_key(s.drop_last(), k));
                    assert(mp_map(s.drop_last()).dom().contains(k));
                    assert(mp_map(s).dom().contains(k));
                } else {
                    assert(k == s.last().0@);
                    assert(mp_map(s).dom().contains(k));
                }
            }
        }
    }
}

/// Under unique keys, the map sends each entry's key to that entry's size.
pub proof fn lemma_mp_map_value(s: Seq<(String, StateTransaction)>, i: int)
    requires
        mp_unique(s),
        0 <= i < s.len(),
    ensures
        mp_map(s).dom().contains(s[i].0@),
        mp_map(s)[s[i].0@] == s[i].1.size,
    decreases s.len(),
{
    if i == s.len() - 1 {
    } else {
        assert forall|a: int, b: int|
            0 <= a && a < b && b < s.drop_last().len() implies (#[trigger] s.drop_last()[a]).0@
            != (#[trigger] s.drop_last()[b]).0@ by {
            assert(s[a].0@ != s[b].0@);
        }
        lemma_mp_map_value(s.drop_last(), i);
        assert(s.drop_last()[i] == s[i]);
        assert(s[i].0@ != s.last().0@);
    }
}

/// How many entries of `s` have a key outside `m`.
pub open spec fn count_absent(s: Seq<(String, StateTransaction)>, m: Map<Seq<char>, u32>) -> int
    decreases s.len(),
{
    if s.len() == 0 {
        0
    } else {
        count_absent(s.drop_last(), m) + (if m.dom().contains(s.last().0@) {
            0int
        } else {
            1int
        })
    }
}

/// If every key of `s` lies in `m`, nothing is counted absent.
pub proof fn lemma_count_absent_zero(s: Seq<(String, StateTransaction)>, m: Map<Seq<char>, u32>)
    requires
        forall|i: int| 0 <= i < s.len() ==> m.dom().contains((#[trigger] s[i]).0@),
    ensures
        count_absent(s, m) == 0,
    decreases s.len(),
{
    if s.len() > 0 {
        assert forall|i: int| 0 <= i < s.drop_last().len() implies m.dom().contains(
            (#[trigger] s.drop_last()[i]).0@,
        ) by {
            assert(s.drop_last()[i] == s[i]);
        }
        lemma_count_absent_zero(s.drop_last(), m);
        assert(m.dom().contains(s[s.len() - 1].0@));
    }
}

/// The refreshed cache: the snapshot's key set, each key keeping its old
/// cached size where one exists and taking the snapshot's size otherwise.
pub open spec fn merged(m_old: Map<Seq<char>, u32>, snap: Map<Seq<char>, u32>) -> Map<
    Seq<char>,
    u32,
> {
    Map::new(
        |k: Seq<char>| snap.dom().contains(k),
        |k: Seq<char>|
            if m_old.dom().contains(k) {
                m_old[k]
            } else {
                snap[k]
            },
    )
}

/// The refreshed entry list: the snapshot's entries in order, sizes merged
/// against the old map.
pub open spec fn merge_seq(s: Seq<(String, StateTransaction)>, m: Map<Seq<char>, u32>) -> Seq<
    (String, StateTransaction),
>
    decreases s.len(),
{
    if s.len() == 0 {
        Seq::empty()
    } else {
        merge_seq(s.drop_last(), m).push(
            (
                s.last().0,
                StateTransaction {
                    size: if m.dom().contains(s.last().0@) {
                        m[s.last().0@]
                    } else {
                        s.last().1.size
                    },
                },
            ),
        )
    }
}

/// Shape of the merged list: same length, same keys in the same places,
/// and its map is exactly `merged`.
pub proof fn lemma_merge_seq(s: Seq<(String, StateTransaction)>, m: Map<Seq<char>, u32>)
    ensures
        merge_seq(s, m).len() == s.len(),
        forall|i: int| 0 <= i < s.len() ==> (#[trigger] merge_seq(s, m)[i]).0@ == s[i].0@,
        mp_map(merge_seq(s, m)) == merged(m, mp_map(s)),
    decreases s.len(),
{
    if s.len() == 0 {
        assert(mp_map(merge_seq(s, m)) =~= merged(m, mp_map(s)));
    } else {
        lemma_merge_seq(s.drop_last(), m);
        let t = merge_seq(s, m);
        let tp = merge_seq(s.drop_last(), m);
        assert(t.drop_last() =~= tp);
        assert(mp_map(t) == mp_map(tp).insert(t.last().0@, t.last().1.size));
        assert forall|i: int| 0 <= i < s.len() implies (#[trigger] t[i]).0@ == s[i].0@ by {
            if i < s.len() - 1 {
                assert(t[i] == tp[i]);
                assert(s.drop_last()[i] == s[i]);
            }
        }
        assert(mp_map(tp).insert(t.last().0@, t.last().1.size) =~= merged(m, mp_map(s)));
    }
}

/// Unique keys survive merging.
pub proof fn lemma_merge_seq_unique(s: Seq<(String, StateTransaction)>, m: Map<Seq<char>, u32>)
    requires
        mp_unique(s),
    ensures
        mp_unique(merge_seq(s, m)),
{
    lemma_merge_seq(s, m);
    let t = merge_seq(s, m);
    assert forall|i: int, j: int| 0 <= i && i < j && j < t.len() implies (#[trigger] t[i]).0@
        != (#[trigger] t[j]).0@ by {
        assert(t[i].0@ == s[i].0@);
        assert(t[j].0@ == s[j].0@);
        assert(s[i].0@ != s[j].0@);
    }
}

/// The set of hashes a newly confirmed block names.
pub open spec fn key_set(hashes: Seq<String>) -> Set<Seq<char>> {
    Set::new(|k: Seq<char>| exists|i: int| 0 <= i < hashes.len() && (#[trigger] hashes[i])@ == k)
}

/// The entry list with every entry whose key lies in `keys` dropped.
pub open spec fn drop_keys(s: Seq<(String, StateTransaction)>, keys: Set<Seq<char>>) -> Seq<
    (String, StateTransaction),
>
    decreases s.len(),
{
    if s.len() == 0 {
        Seq::empty()
    } else {
        drop_keys(s.drop_last(), keys) + (if keys.contains(s.last().0@) {
            Seq::empty()
        } else {
            seq![s.last()]
        })
    }
}

/// How many entries of `s` have a key inside `keys`.
pub open spec fn count_present(s: Seq<(String, StateTransaction)>, keys: Set<Seq<char>>) -> int
    decreases s.len(),
{
    if s.len() == 0 {
        0
    } else {
        count_present(s.drop_last(), keys) + (if keys.contains(s.last().0@) {
            1int
        } else {
            0int
        })
    }
}

/// Dropping keys is, at the map level, exactly `remove_keys`; unique keys
/// survive, and what is dropped is what `count_present` counts.
pub proof fn lemma_drop_keys(s: Seq<(String, StateTransaction)>, keys: Set<Seq<char>>)
    ensures
        mp_map(drop_keys(s, keys)) == mp_map(s).remove_keys(keys),
        mp_unique(s) ==> mp_unique(drop_keys(s, keys)),
        drop_keys(s, keys).len() + count_present(s, keys) == s.len(),
        forall|k: Seq<char>| has_key(drop_keys(s, keys), k) ==> has_key(s, k),
    decreases s.len(),
{
    if s.len() == 0 {
        assert(mp_map(drop_keys(s, keys)) =~= mp_map(s).remove_keys(keys));
    } else {
        lemma_drop_keys(s.drop_last(), keys);
        let d = drop_keys(s, keys);
        let dp = drop_keys(s.drop_last(), keys);
        if keys.contains(s.last().0@) {
            assert(d =~= dp);
            assert(mp_map(s).remove_keys(keys) =~= mp_map(s.drop_last()).remove_keys(keys));
            assert forall|k: Seq<char>| has_key(d, k) implies has_key(s, k) by {
                let i = choose|i: int| 0 <= i < d.len() && (#[trigger] d[i]).0@ == k;
                assert((dp[i]).0@ == k);
                assert(has_key(dp, k));
                assert(has_key(s.drop_last(), k));
                let j = choose|j: int|
                    0 <= j < s.drop_last().len() && (#[trigger] s.drop_last()[j]).0@ == k;
                assert(s[j].0@ == k);
            }
        } else {
            assert(d =~= dp.push(s.last()));
            assert(d.drop_last() =~= dp);
            assert(mp_map(d) == mp_map(dp).insert(s.last().0@, s.last().1.size));
            assert(mp_map(d) =~= mp_map(s).remove_keys(keys));
            assert forall|k: Seq<char>| has_key(d, k) implies has_key(s, k) by {
                let i = choose|i: int| 0 <= i < d.len() && (#[trigger] d[i]).0@ == k;
                if i < d.len() - 1 {
                    assert((dp[i]).0@ == k);
                    assert(has_key(dp, k));
                    assert(has_key(s.drop_last(), k));
                    let j = choose|j: int|
                        0 <= j < s.drop_last().len() && (#[trigger] s.drop_last()[j]).0@ == k;
                    assert(s[j].0@ == k);
                } else {
                    assert(s[s.len() - 1].0@ == k);
                }
            }
            if mp_unique(s) {
                assert forall|a: int, b: int|
                    0 <= a && a < b && b < s.drop_last().len() implies (#[trigger] s.drop_last()[a]).0@
                    != (#[trigger] s.drop_last()[b]).0@ by {
                    assert(s[a].0@ != s[b].0@);
                }
                assert(mp_unique(dp));
                assert forall|a: int, b: int| 0 <= a && a < b && b < d.len() implies (
                #[trigger] d[a]).0@ != (#[trigger] d[b]).0@ by {
                    if b < d.len() - 1 {
                        assert(d[a] == dp[a] && d[b] == dp[b]);
                    } else {
                        assert(d[b] == s.last());
                        assert(d[a] == dp[a]);
                        assert(has_key(dp, dp[a].0@)) by {
                            assert((dp[a]).0@ == dp[a].0@);
                        }
                        assert(has_key(s.drop_last(), dp[a].0@));
                        let j = choose|j: int|
                            0 <= j < s.drop_last().len() && (#[trigger] s.drop_last()[j]).0@
                                == dp[a].0@;
                        assert(s[j].0@ == dp[a].0@);
                        assert(s[j].0@ != s[s.len() - 1].0@);
                    }
                }
            }
        }
    }
}

/// Addition capped at the largest `usize`, for counters that must never
/// overflow however long the process runs.
pub open spec fn cap_add(a: int, b: int) -> int {
    if a + b > usize::MAX as int {
        usize::MAX as int
    } else {
        a + b
    }
}

/// Whether a report is due `now`: none was ever made, or the last one is
/// older than `interval`. A clock that jumped backwards reads as not due.
pub open spec fn report_due(last: Option<u64>, now: u64, interval: u64) -> bool {
    match last {
        None => true,
        Some(t) => now >= t && now - t > interval,
    }
}

/// Linear scan: does any cached entry carry this key?
fn mp_contains(v: &Vec<(String, StateTransaction)>, key: &String) -> (r: bool)
    ensures
        r == mp_map(v@).dom().contains(key@),
{
    let mut i: usize = 0;
    while i < v.len()
        invariant
            i <= v@.len(),
            forall|j: int| 0 <= j < i ==> (#[trigger] v@[j]).0@ != key@,
        decreases v@.len() - i,
    {
        if v[i].0 == *key {
            proof {
                lemma_mp_map_dom(v@);
                assert((v@[i as int]).0@ == key@);
                assert(has_key(v@, key@));
            }
            return true;
        }
        i = i + 1;
    }
    proof {
        lemma_mp_map_dom(v@);
        if has_key(v@, key@) {
            let j = choose|j: int| 0 <= j < v@.len() && (#[trigger] v@[j]).0@ == key@;
        }
    }
    false
}

/// Linear scan: the cached size under this key, if any.
fn mp_lookup(v: &Vec<(String, StateTransaction)>, key: &String) -> (r: Option<u32>)
    requires
        mp_unique(v@),
    ensures
        (match r {
            Some(sz) => mp_map(v@).dom().contains(key@) && mp_map(v@)[key@] == sz,
            None => !mp_map(v@).dom().contains(key@),
        }),
{
    let mut i: usize = 0;
    while i < v.len()
        invariant
            mp_unique(v@),
            i <= v@.len(),
            forall|j: int| 0 <= j < i ==> (#[trigger] v@[j]).0@ != key@,
        decreases v@.len() - i,
    {
        if v[i].0 == *key {
            proof {
                lemma_mp_map_value(v@, i as int);
            }
            return Some(v[i].1.size);
        }
        i = i + 1;
    }
    proof {
        lemma_mp_map_dom(v@);
        if has_key(v@, key@) {
            let j = choose|j: int| 0 <= j < v@.len() && (#[trigger] v@[j]).0@ == key@;
        }
    }
    None
}

/// Linear scan: does the hash list name this hash?
fn contains_hash(v: &Vec<String>, h: &String) -> (r: bool)
    ensures
        r == key_set(v@).contains(h@),
{
    let mut i: usize = 0;
    while i < v.len()
        invariant
            i <= v@.len(),
            forall|j: int| 0 <= j < i ==> (#[trigger] v@[j])@ != h@,
        decreases v@.len() - i,
    {
        if v[i] == *h {
            proof {
                assert((v@[i as int])@ == h@);
            }
            return true;
        }
        i = i + 1;
    }
    proof {
        if key_set(v@).contains(h@) {
            let j = choose|j: int| 0 <= j < v@.len() && (#[trigger] v@[j])@ == h@;
        }
    }
    false
}

/// What a due report hands back: current cache size and the counters
/// accumulated since the previous report.
#[derive(Debug, Clone, Copy, PartialEq, Eq, Structural)]
pub struct MempoolSummary {
    pub size: usize,
    pub added: usize,
    pub removed: usize,
}

/// The unconfirmed-transaction cache: entries keyed by transaction hash,
/// add/remove counters since the last report, and the time (milliseconds)
/// of the last report.
#[derive(Debug)]
pub struct StateMempool {
    pub transactions: Vec<(String, StateTransaction)>,
    pub last_log: Option<u64>,
    pub added: usize,
    pub removed: usize,
}

impl StateMempool {
    /// An empty cache that has never reported.
    pub fn new() -> (r: StateMempool)
        ensures
            r.transactions@.len() == 0,
            r.last_log is None,
            r.added == 0,
            r.removed == 0,
    {
        StateMempool { transactions: Vec::new(), last_log: None, added: 0, removed: 0 }
    }

    /// Set-diff refresh against a full snapshot of the node's mempool:
    /// entries absent from the snapshot leave (counted as removed), keys
    /// new in the snapshot enter with the snapshot's size (counted as
    /// added), and entries present on both sides keep their cached size.
    pub fn refresh(&mut self, snapshot: &Vec<(String, StateTransaction)>)
        requires
            mp_unique(old(self).transactions@),
            mp_unique(snapshot@),
        ensures
            mp_unique(final(self).transactions@),
            final(self).transactions@.len() == snapshot@.len(),
            mp_map(final(self).transactions@) == merged(
                mp_map(old(self).transactions@),
                mp_map(snapshot@),
            ),
            final(self).added == cap_add(
                old(self).added as int,
                count_absent(snapshot@, mp_map(old(self).transactions@)),
            ),
            final(self).removed == cap_add(
                old(self).removed as int,
                count_absent(old(self).transactions@, mp_map(snapshot@)),
            ),
            final(self).last_log == old(self).last_log,
    {
        let ghost old_entries = self.transactions@;
        let ghost m_old = mp_map(old_entries);
        let ghost m_snap = mp_map(snapshot@);

        let mut removed_now: usize = 0;
        let mut i: usize = 0;
        while i < self.transactions.len()
            invariant
                i <= old_entries.len(),
                self.transactions@ == old_entries,
                m_snap == mp_map(snapshot@),
                removed_now as int == count_absent(old_entries.take(i as int), m_snap),
                removed_now <= i,
            decreases old_entries.len() - i,
        {
            let present = mp_contains(snapshot, &self.transactions[i].0);
            proof {
                assert(old_entries.take(i as int + 1).drop_last() =~= old_entries.take(i as int));
                assert(old_entries.take(i as int + 1).last() == old_entries[i as int]);
            }
            if !present {
                removed_now = removed_now + 1;
            }
            i = i + 1;
        }
        proof {
            assert(old_entries.take(old_entries.len() as int) =~= old_entries);
        }

        let mut merged_vec: Vec<(String, StateTransaction)> = Vec::new();
        let mut added_now: usize = 0;
        let mut j: usize = 0;
        while j < snapshot.len()
            invariant
                j <= snapshot@.len(),
                self.transactions@ == old_entries,
                mp_unique(old_entries),
                m_old == mp_map(old_entries),
                merged_vec@ == merge_seq(snapshot@.take(j as int), m_old),
                added_now as int == count_absent(snapshot@.take(j as int), m_old),
                added_now <= j,
            decreases snapshot@.len() - j,
        {
            let entry = &snapshot[j];
            let found = mp_lookup(&self.transactions, &entry.0);
            proof {
                assert(snapshot@.take(j as int + 1).drop_last() =~= snapshot@.take(j as int));
                assert(snapshot@.take(j as int + 1).last() == snapshot@[j as int]);
            }
            match found {
                Some(sz) => {
                    merged_vec.push((entry.0.clone(), StateTransaction { size: sz }));
                },
                None => {
                    merged_vec.push((entry.0.clone(), StateTransaction { size: entry.1.size }));
                    added_now = added_now + 1;
                },
            }
            j = j + 1;
        }
        proof {
            assert(snapshot@.take(snapshot@.len() as int) =~= snapshot@);
            lemma_merge_seq(snapshot@, m_old);
            lemma_merge_seq_unique(snapshot@, m_old);
        }

        self.transactions = merged_vec;
        self.added = if self.added <= usize::MAX - added_now {
            self.added + added_now
        } else {
            usize::MAX
        };
        self.removed = if self.removed <= usize::MAX - removed_now {
            self.removed + removed_now
        } else {
            usize::MAX
        };
    }

    /// Hand back a summary and reset the counters if a report is due;
    /// otherwise change nothing.
    pub fn report_if_due(&mut self, now_ms: u64, interval_ms: u64) -> (r: Option<MempoolSummary>)
        ensures
            (match r {
                Some(sum) => {
                    &&& report_due(old(self).last_log, now_ms, interval_ms)
                    &&& sum.size == old(self).transactions@.len()
                    &&& sum.added == old(self).added
                    &&& sum.removed == old(self).removed
                    &&& final(self).transactions == old(self).transactions
                    &&& final(self).added == 0
                    &&& final(self).removed == 0
                    &&& final(self).last_log == Some(now_ms)
                },
                None => {
                    &&& !report_due(old(self).last_log, now_ms, interval_ms)
                    &&& *final(self) == *old(self)
                },
            }),
    {
        let due = match self.last_log {
            None => true,
            Some(t) => now_ms >= t && now_ms - t > interval_ms,
        };
        if due {
            let sum = MempoolSummary {
                size: self.transactions.len(),
                added: self.added,
                removed: self.removed,
            };
            self.added = 0;
            self.removed = 0;
            self.last_log = Some(now_ms);
            Some(sum)
        } else {
            None
        }
    }

    /// Remove every transaction a newly confirmed block names, so that no
    /// reader can see one as both confirmed and pending; the count of
    /// entries that left is handed back. Counters and report time are not
    /// touched here.
    pub fn reconcile_confirmed(&mut self, confirmed: &Vec<String>) -> (n: usize)
        requires
            mp_unique(old(self).transactions@),
        ensures
            mp_unique(final(self).transactions@),
            mp_map(final(self).transactions@) == mp_map(old(self).transactions@).remove_keys(
                key_set(confirmed@),
            ),
            n as int == count_present(old(self).transactions@, key_set(confirmed@)),
            final(self).added == old(self).added,
            final(self).removed == old(self).removed,
            final(self).last_log == old(self).last_log,
    {
        let ghost old_entries = self.transactions@;
        let ghost kset = key_set(confirmed@);
        let mut kept: Vec<(String, StateTransaction)> = Vec::new();
        let mut n: usize = 0;
        let mut i: usize = 0;
        while i < self.transactions.len()
            invariant
                i <= old_entries.len(),
                self.transactions@ == old_entries,
                kset == key_set(confirmed@),
                kept@ == drop_keys(old_entries.take(i as int), kset),
                n as int == count_present(old_entries.take(i as int), kset),
                n <= i,
            decreases old_entries.len() - i,
        {
            let confirmed_here = contains_hash(confirmed, &self.transactions[i].0);
            proof {
                assert(old_entries.take(i as int + 1).drop_last() =~= old_entries.take(i as int));
                assert(old_entries.take(i as int + 1).last() == old_entries[i as int]);
            }
            if confirmed_here {
                n = n + 1;
                proof {
                    assert(kept@ =~= drop_keys(old_entries.take(i as int + 1), kset));
                }
            } else {
                let entry = &self.transactions[i];
                kept.push((entry.0.clone(), StateTransaction { size: entry.1.size }));
                proof {
                    assert(kept@ =~= drop_keys(old_entries.take(i as int + 1), kset));
                }
            }
            i = i + 1;
        }
        proof {
            assert(old_entries.take(old_entries.len() as int) =~= old_entries);
            lemma_drop_keys(old_entries, kset);
        }
        self.transactions = kept;
        n
    }
}

/// Law: refreshing twice against the same snapshot changes nothing the
/// second time. After one refresh the cache is the merge of old cache and
/// snapshot; merging that with the same snapshot again gives the same map,
/// no snapshot key is counted as newly added, and no cached entry is
/// counted as removed.
pub proof fn lemma_refresh_idempotent(m0: Map<Seq<char>, u32>, s: Seq<(String, StateTransaction)>)
    ensures
        merged(merged(m0, mp_map(s)), mp_map(s)) == merged(m0, mp_map(s)),
        count_absent(s, merged(m0, mp_map(s))) == 0,
        count_absent(merge_seq(s, m0), mp_map(s)) == 0,
{
    let sm = mp_map(s);
    let m1 = merged(m0, sm);
    assert(merged(m1, sm) =~= m1);
    lemma_mp_map_dom(s);
    assert forall|i: int| 0 <= i < s.len() implies m1.dom().contains((#[trigger] s[i]).0@) by {
        assert(has_key(s, s[i].0@)) by {
            assert((s[i]).0@ == s[i].0@);
        }
    }
    lemma_count_absent_zero(s, m1);
    lemma_merge_seq(s, m0);
    let t = merge_seq(s, m0);
    assert forall|i: int| 0 <= i < t.len() implies sm.dom().contains((#[trigger] t[i]).0@) by {
        assert(t[i].0@ == s[i].0@);
        assert(has_key(s, s[i].0@)) by {
            assert((s[i]).0@ == s[i].0@);
        }
    }
    lemma_count_absent_zero(t, sm);
}

/// Which end of the window an operation touches.
#[derive(Debug, Clone, Copy, PartialEq, Eq, Structural)]
pub enum BlocksListSide {
    Front,
    Back,
}

/// Every adjacent pair of the block sequence chains correctly.
pub open spec fn state_chain_linked(s: Seq<StateBlock>) -> bool {
    forall|i: int| 0 <= i && i + 1 < s.len() ==> links(#[trigger] s[i], s[i + 1])
}

/// What remains of the window after evicting from the front to make room
/// for one new block at the back: the highest blocks, one fewer than the
/// floor, or everything if the window is still below the floor.
pub open spec fn evict_front(s: Seq<StateBlock>) -> Seq<StateBlock> {
    if s.len() as int >= APP_BLOCKS_MINIMUM as int {
        s.skip(s.len() as int - (APP_BLOCKS_MINIMUM as int - 1))
    } else {
        s
    }
}

/// The mirror image: what remains after evicting from the back to make
/// room for one new block at the front.
pub open spec fn evict_back(s: Seq<StateBlock>) -> Seq<StateBlock> {
    if s.len() as int >= APP_BLOCKS_MINIMUM as int {
        s.take(APP_BLOCKS_MINIMUM as int - 1)
    } else {
        s
    }
}

/// What to fetch next while growing the window toward its floor.
#[derive(Debug, Clone, PartialEq)]
pub enum InitFetch {
    /// The window has reached the floor; initialization is done.
    Complete,
    /// The window is empty: ask the node for its current best block hash
    /// and fetch that block.
    FetchBest,
    /// Fetch the named block, the parent of the window's lowest block.
    FetchBlock(String),
}

/// What applying one fetched block during initialization did.
#[derive(Debug, Clone, Copy, PartialEq, Eq, Structural)]
pub enum InitApplied {
    /// The block was prepended.
    Added,
    /// The node reported "not found" while the window is still empty: its
    /// tip may be mid-transition, so simply ask again.
    Retry,
}

/// What the steady-state poll should do next.
#[derive(Debug, Clone, Copy, PartialEq, Eq, Structural)]
pub enum UpdateDecision {
    /// The node's best hash equals the local tip: nothing to do.
    NoChange,
    /// The node's height fell to or below the local tip: a reorg deeper
    /// than one block; drop the tip and re-initialize, then decide again.
    Repair,
    /// Fetch the block at this height (one above the local tip).
    FetchHeight(u32),
}

/// What applying one fetched candidate block did.
#[derive(Debug, Clone, Copy, PartialEq, Eq, Structural)]
pub enum NextBlockOutcome {
    /// The candidate extended the tip; this many cached mempool entries
    /// became confirmed and left the cache.
    Appended(usize),
    /// The node has no block above the tip yet; nothing changed.
    NotFound,
    /// The candidate names a different parent than the local tip: the
    /// chain diverged. The tip was dropped; initialization must run.
    Diverged,
}

/// The engine's state: the bounded window of confirmed blocks, lowest
/// height first, and the mempool cache. The two mutate together so that a
/// reader never sees a transaction as both confirmed and pending.
#[derive(Debug)]
pub struct State {
    blocks: Vec<StateBlock>,
    mempool: StateMempool,
}

impl State {
    /// The window's blocks, lowest height first.
    pub closed spec fn blocks_view(&self) -> Seq<StateBlock> {
        self.blocks@
    }

    /// The mempool cache as a whole.
    pub closed spec fn mempool_cache(&self) -> StateMempool {
        self.mempool
    }

    /// The cache's entry list.
    pub open spec fn mempool_entries(&self) -> Seq<(String, StateTransaction)> {
        self.mempool_cache().transactions@
    }

    /// The cache as a map from transaction hash to size.
    pub open spec fn mempool_view(&self) -> Map<Seq<char>, u32> {
        mp_map(self.mempool_entries())
    }

    /// Well-formedness: the window chains correctly and cache keys are
    /// unique. Every operation preserves this.
    pub open spec fn wf(&self) -> bool {
        &&& state_chain_linked(self.blocks_view())
        &&& mp_unique(self.mempool_entries())
    }

    /// A fresh engine: empty window, empty cache.
    pub fn new() -> (s: State)
        ensures
            s.wf(),
            s.blocks_view().len() == 0,
            s.mempool_entries().len() == 0,
            s.mempool_cache().added == 0,
            s.mempool_cache().removed == 0,
            s.mempool_cache().last_log is None,
    {
        State { blocks: Vec::new(), mempool: StateMempool::new() }
    }

    /// The locally known best block.
    pub fn tip(&self) -> (b: &StateBlock)
        requires
            self.blocks_view().len() > 0,
        ensures
            *b == self.blocks_view().last(),
    {
        &self.blocks[self.blocks.len() - 1]
    }

    /// How many blocks the window holds.
    pub fn blocks_len(&self) -> (n: usize)
        ensures
            n == self.blocks_view().len(),
    {
        self.blocks.len()
    }

    /// Evict blocks from one side until the window is one below its
    /// floor, making room for a push on the other side; a window below
    /// the floor is left alone. The mempool is untouched.
    pub fn remove_blocks(&mut self, side: BlocksListSide)
        ensures
            final(self).blocks_view() == (match side {
                BlocksListSide::Front => evict_front(old(self).blocks_view()),
                BlocksListSide::Back => evict_back(old(self).blocks_view()),
            }),
            final(self).mempool_cache() == old(self).mempool_cache(),
            state_chain_linked(old(self).blocks_view()) ==> state_chain_linked(
                final(self).blocks_view(),
            ),
    {
        let ghost s0 = self.blocks@;
        match side {
            BlocksListSide::Front => {
                proof {
                    assert(s0.skip(0) =~= s0);
                }
                while self.blocks.len() >= APP_BLOCKS_MINIMUM
                    invariant
                        self.blocks@.len() <= s0.len(),
                        self.blocks@ == s0.skip(s0.len() as int - self.blocks@.len() as int),
                        s0.len() as int >= APP_BLOCKS_MINIMUM as int ==> self.blocks@.len() as int
                            >= APP_BLOCKS_MINIMUM as int - 1,
                        ((s0.len() as int) < (APP_BLOCKS_MINIMUM as int)) ==> self.blocks@.len()
                            == s0.len(),
                        self.mempool == old(self).mempool,
                    decreases self.blocks@.len(),
                {
                    let ghost prev = self.blocks@;
                    self.blocks.remove(0);
                    proof {
                        let d = s0.len() as int - prev.len() as int;
                        assert(self.blocks@ =~= s0.skip(d + 1));
                    }
                }
            },
            BlocksListSide::Back => {
                proof {
                    assert(s0.take(s0.len() as int) =~= s0);
                }
                while self.blocks.len() >= APP_BLOCKS_MINIMUM
                    invariant
                        self.blocks@.len() <= s0.len(),
                        self.blocks@ == s0.take(self.blocks@.len() as int),
                        s0.len() as int >= APP_BLOCKS_MINIMUM as int ==> self.blocks@.len() as int
                            >= APP_BLOCKS_MINIMUM as int - 1,
                        ((s0.len() as int) < (APP_BLOCKS_MINIMUM as int)) ==> self.blocks@.len()
                            == s0.len(),
                        self.mempool == old(self).mempool,
                    decreases self.blocks@.len(),
                {
                    let ghost prev = self.blocks@;
                    self.blocks.pop();
                    proof {
                        assert(self.blocks@ =~= s0.take(prev.len() as int - 1));
                    }
                }
            },
        }
        proof {
            if state_chain_linked(s0) {
                let s = self.blocks@;
                assert forall|i: int| 0 <= i && i + 1 < s.len() implies links(
                    #[trigger] s[i],
                    s[i + 1],
                ) by {
                    match side {
                        BlocksListSide::Front => {
                            let d = s0.len() as int - s.len() as int;
                            assert(links(s0[d + i], s0[d + i + 1]));
                        },
                        BlocksListSide::Back => {
                            assert(links(s0[i], s0[i + 1]));
                        },
                    }
                }
            }
        }
    }

    /// Drop the locally known best block, the first half of a reorg
    /// repair; the sync loop then re-runs initialization to restore the
    /// floor, exactly as the repair step prescribes.
    pub fn remove_best_block(&mut self)
        ensures
            old(self).blocks_view().len() > 0 ==> final(self).blocks_view() == old(
                self,
            ).blocks_view().drop_last(),
            old(self).blocks_view().len() == 0 ==> final(self).blocks_view() == old(
                self,
            ).blocks_view(),
            final(self).mempool_cache() == old(self).mempool_cache(),
            state_chain_linked(old(self).blocks_view()) ==> state_chain_linked(
                final(self).blocks_view(),
            ),
    {
        if self.blocks.len() > 0 {
            self.blocks.pop();
        }
        proof {
            if state_chain_linked(old(self).blocks_view()) {
                let s = self.blocks@;
                assert forall|i: int| 0 <= i && i + 1 < s.len() implies links(
                    #[trigger] s[i],
                    s[i + 1],
                ) by {
                    assert(links(old(self).blocks_view()[i], old(self).blocks_view()[i + 1]));
                }
            }
        }
    }

    /// Add a validated block at one end of the window, evicting from the
    /// other end to hold the floor, and atomically drop the block's
    /// transactions from the mempool cache. The count of entries that
    /// left the cache is handed back; the cache's counters restart and
    /// the block's arrival counts as a report.
    pub fn add_block(&mut self, block: StateBlock, side: BlocksListSide, now_ms: u64) -> (confirmed:
        usize)
        requires
            old(self).wf(),
            (match side {
                BlocksListSide::Front => old(self).blocks_view().len() > 0 ==> links(
                    block,
                    old(self).blocks_view()[0],
                ),
                BlocksListSide::Back => old(self).blocks_view().len() > 0 ==> links(
                    old(self).blocks_view().last(),
                    block,
                ),
            }),
        ensures
            final(self).wf(),
            old(self).blocks_view().len() as int >= APP_BLOCKS_MINIMUM as int ==> final(self).blocks_view().len()
                == APP_BLOCKS_MINIMUM as int,
            final(self).blocks_view() == (match side {
                BlocksListSide::Front => seq![block] + evict_back(old(self).blocks_view()),
                BlocksListSide::Back => evict_front(old(self).blocks_view()).push(block),
            }),
            final(self).mempool_view() == old(self).mempool_view().remove_keys(
                key_set(block.transactions@),
            ),
            confirmed as int == count_present(
                old(self).mempool_entries(),
                key_set(block.transactions@),
            ),
            final(self).mempool_cache().added == 0,
            final(self).mempool_cache().removed == 0,
            final(self).mempool_cache().last_log == Some(now_ms),
    {
        let confirmed = self.mempool.reconcile_confirmed(&block.transactions);
        self.mempool.added = 0;
        self.mempool.removed = 0;
        self.mempool.last_log = Some(now_ms);
        let ghost s0 = old(self).blocks_view();
        match side {
            BlocksListSide::Front => {
                self.remove_blocks(BlocksListSide::Back);
                self.blocks.insert(0, block);
                proof {
                    assert(self.blocks@ =~= seq![block] + evict_back(s0));
                    let s = self.blocks@;
                    assert forall|i: int| 0 <= i && i + 1 < s.len() implies links(
                        #[trigger] s[i],
                        s[i + 1],
                    ) by {
                        if i == 0 {
                            assert(s[1] == s0[0]);
                        } else {
                            assert(s[i] == s0[i - 1]);
                            assert(s[i + 1] == s0[i]);
                            assert(links(s0[i - 1], s0[i]));
                        }
                    }
                }
            },
            BlocksListSide::Back => {
                self.remove_blocks(BlocksListSide::Front);
                self.blocks.push(block);
                proof {
                    assert(self.blocks@ =~= evict_front(s0).push(block));
                    let ev = evict_front(s0);
                    let d = s0.len() as int - ev.len() as int;
                    let s = self.blocks@;
                    assert forall|i: int| 0 <= i && i + 1 < s.len() implies links(
                        #[trigger] s[i],
                        s[i + 1],
                    ) by {
                        if i + 1 < s.len() - 1 {
                            assert(s[i] == s0[d + i]);
                            assert(s[i + 1] == s0[d + i + 1]);
                            assert(links(s0[d + i], s0[d + i + 1]));
                        } else {
                            assert(s[i] == s0[s0.len() - 1]);
                            assert(s[i + 1] == block);
                        }
                    }
                }
            },
        }
        confirmed
    }

    /// What to fetch next while the window is below its floor: the
    /// parent of the lowest block, or the node's best block for an empty
    /// window. Reaching genesis before the floor is the terminal
    /// not-enough-blocks error.
    pub fn init_request(&self) -> (r: Result<InitFetch, AppError>)
        ensures
            (match r {
                Ok(InitFetch::Complete) => self.blocks_view().len() as int
                    >= APP_BLOCKS_MINIMUM as int,
                Ok(InitFetch::FetchBest) => self.blocks_view().len() == 0,
                Ok(InitFetch::FetchBlock(h)) => {
                    &&& 0 < self.blocks_view().len() && (self.blocks_view().len() as int) < (APP_BLOCKS_MINIMUM as int)
                    &&& (self.blocks_view()[0].prevhash matches Some(p) && p@ == h@)
                },
                Err(AppError::NotEnoughBlocks) => {
                    &&& 0 < self.blocks_view().len() && (self.blocks_view().len() as int) < (APP_BLOCKS_MINIMUM as int)
                    &&& self.blocks_view()[0].prevhash is None
                },
                _ => false,
            }),
    {
        if self.blocks.len() >= APP_BLOCKS_MINIMUM {
            return Ok(InitFetch::Complete);
        }
        if self.blocks.len() == 0 {
            return Ok(InitFetch::FetchBest);
        }
        match &self.blocks[0].prevhash {
            None => Err(AppError::NotEnoughBlocks),
            Some(h) => Ok(InitFetch::FetchBlock(h.clone())),
        }
    }

    /// Apply one block fetched during initialization. "Not found" on an
    /// empty window is transient (ask again); on a non-empty window the
    /// previously referenced ancestor vanished, which a consistent chain
    /// cannot do. A block that does not chain onto the lowest block is
    /// the same terminal corruption. A fitting block is prepended and
    /// its transactions leave the mempool cache.
    pub fn apply_init_block(&mut self, fetched: Option<StateBlock>, now_ms: u64) -> (r: Result<
        InitApplied,
        AppError,
    >)
        requires
            old(self).wf(),
            (old(self).blocks_view().len() as int) < (APP_BLOCKS_MINIMUM as int),
        ensures
            final(self).wf(),
            (match r {
                Ok(InitApplied::Retry) => {
                    &&& fetched is None
                    &&& old(self).blocks_view().len() == 0
                    &&& *final(self) == *old(self)
                },
                Ok(InitApplied::Added) => (fetched matches Some(b) && {
                    &&& old(self).blocks_view().len() == 0 || links(b, old(self).blocks_view()[0])
                    &&& final(self).blocks_view() == seq![b] + old(self).blocks_view()
                    &&& final(self).mempool_view() == old(self).mempool_view().remove_keys(
                        key_set(b.transactions@),
                    )
                    &&& final(self).mempool_cache().added == 0
                    &&& final(self).mempool_cache().removed == 0
                    &&& final(self).mempool_cache().last_log == Some(now_ms)
                }),
                Err(AppError::InvalidBlockchain) => {
                    &&& *final(self) == *old(self)
                    &&& old(self).blocks_view().len() > 0
                    &&& (match fetched {
                        None => true,
                        Some(b) => !links(b, old(self).blocks_view()[0]),
                    })
                },
                _ => false,
            }),
    {
        let block = match fetched {
            None => {
                if self.blocks.len() == 0 {
                    return Ok(InitApplied::Retry);
                } else {
                    return Err(AppError::InvalidBlockchain);
                }
            },
            Some(b) => b,
        };
        if self.blocks.len() > 0 {
            let first = &self.blocks[0];
            if !(first.height > 0 && block.height == first.height - 1) {
                return Err(AppError::InvalidBlockchain);
            }
            let hash_ok = match &first.prevhash {
                None => false,
                Some(p) => *p == block.hash,
            };
            if !hash_ok {
                return Err(AppError::InvalidBlockchain);
            }
        }
        let ghost s0 = old(self).blocks_view();
        self.mempool.reconcile_confirmed(&block.transactions);
        self.mempool.added = 0;
        self.mempool.removed = 0;
        self.mempool.last_log = Some(now_ms);
        self.blocks.insert(0, block);
        proof {
            assert(self.blocks@ =~= seq![block] + s0);
            let s = self.blocks@;
            assert forall|i: int| 0 <= i && i + 1 < s.len() implies links(
                #[trigger] s[i],
                s[i + 1],
            ) by {
                if i == 0 {
                    assert(s[1] == s0[0]);
                } else {
                    assert(s[i] == s0[i - 1]);
                    assert(s[i + 1] == s0[i]);
                    assert(links(s0[i - 1], s0[i]));
                }
            }
        }
        Ok(InitApplied::Added)
    }

    /// Decide the block-side work of one steady-state iteration from the
    /// node's chain info.
    pub fn update_decision(&self, info: &ResponseBlockchainInfo) -> (r: UpdateDecision)
        requires
            self.blocks_view().len() > 0,
        ensures
            (match r {
                UpdateDecision::NoChange => info.bestblockhash@ == self.blocks_view().last().hash@,
                UpdateDecision::Repair => {
                    &&& info.bestblockhash@ != self.blocks_view().last().hash@
                    &&& self.blocks_view().last().height >= info.blocks
                },
                UpdateDecision::FetchHeight(h) => {
                    &&& info.bestblockhash@ != self.blocks_view().last().hash@
                    &&& self.blocks_view().last().height < info.blocks
                    &&& h == self.blocks_view().last().height + 1
                },
            }),
    {
        let tip = &self.blocks[self.blocks.len() - 1];
        if info.bestblockhash == tip.hash {
            return UpdateDecision::NoChange;
        }
        if tip.height >= info.blocks {
            return UpdateDecision::Repair;
        }
        UpdateDecision::FetchHeight(tip.height + 1)
    }

    /// Whether the repair loop must drop another tip block: the node's
    /// reported height is still at or below the local tip.
    pub fn needs_repair(&self, info: &ResponseBlockchainInfo) -> (r: bool)
        requires
            self.blocks_view().len() > 0,
        ensures
            r == (self.blocks_view().last().height >= info.blocks),
    {
        self.blocks[self.blocks.len() - 1].height >= info.blocks
    }

    /// Apply the block fetched one above the tip. If it names the tip as
    /// parent it is appended (tip advance and mempool reconciliation in
    /// one step); a different parent is a divergence, answered by
    /// dropping the tip; no parent at all is terminal corruption; no
    /// block yet means the node is catching up and nothing changes.
    pub fn apply_next_block(&mut self, fetched: Option<StateBlock>, now_ms: u64) -> (r: Result<
        NextBlockOutcome,
        AppError,
    >)
        requires
            old(self).wf(),
            old(self).blocks_view().len() > 0,
            (fetched matches Some(b) ==> b.height == old(self).blocks_view().last().height + 1),
        ensures
            final(self).wf(),
            old(self).blocks_view().len() as int >= APP_BLOCKS_MINIMUM as int && !(r matches Ok(
                NextBlockOutcome::Diverged,
            )) ==> final(self).blocks_view().len() as int >= APP_BLOCKS_MINIMUM as int,
            (match r {
                Ok(NextBlockOutcome::NotFound) => {
                    &&& fetched is None
                    &&& *final(self) == *old(self)
                },
                Ok(NextBlockOutcome::Appended(confirmed)) => (fetched matches Some(b) && {
                    &&& links(old(self).blocks_view().last(), b)
                    &&& final(self).blocks_view() == evict_front(old(self).blocks_view()).push(b)
                    &&& final(self).mempool_view() == old(self).mempool_view().remove_keys(
                        key_set(b.transactions@),
                    )
                    &&& confirmed as int == count_present(
                        old(self).mempool_entries(),
                        key_set(b.transactions@),
                    )
                    &&& final(self).mempool_cache().added == 0
                    &&& final(self).mempool_cache().removed == 0
                    &&& final(self).mempool_cache().last_log == Some(now_ms)
                }),
                Ok(NextBlockOutcome::Diverged) => (fetched matches Some(b) && {
                    &&& b.prevhash is Some
                    &&& b.prevhash->0@ != old(self).blocks_view().last().hash@
                    &&& final(self).blocks_view() == old(self).blocks_view().drop_last()
                    &&& final(self).mempool_cache() == old(self).mempool_cache()
                }),
                Err(AppError::InvalidBlockchain) => {
                    &&& (fetched matches Some(b) && b.prevhash is None)
                    &&& *final(self) == *old(self)
                },
                _ => false,
            }),
    {
        let block = match fetched {
            None => {
                return Ok(NextBlockOutcome::NotFound);
            },
            Some(b) => b,
        };
        let tip_idx = self.blocks.len() - 1;
        let matches_tip = match &block.prevhash {
            None => {
                return Err(AppError::InvalidBlockchain);
            },
            Some(p) => *p == self.blocks[tip_idx].hash,
        };
        if matches_tip {
            let confirmed = self.add_block(block, BlocksListSide::Back, now_ms);
            Ok(NextBlockOutcome::Appended(confirmed))
        } else {
            self.blocks.pop();
            proof {
                let s = self.blocks@;
                assert forall|i: int| 0 <= i && i + 1 < s.len() implies links(
                    #[trigger] s[i],
                    s[i + 1],
                ) by {
                    assert(links(old(self).blocks_view()[i], old(self).blocks_view()[i + 1]));
                }
            }
            Ok(NextBlockOutcome::Diverged)
        }
    }

    /// Snapshot of the mempool cache for read clients, in cache order.
    pub fn get_mempool(&self) -> (r: Vec<json::Transaction>)
        ensures
            r@.len() == self.mempool_entries().len(),
            forall|i: int|
                0 <= i < r@.len() ==> {
                    &&& (#[trigger] r@[i]).hash@ == self.mempool_entries()[i].0@
                    &&& r@[i].size == self.mempool_entries()[i].1.size
                },
    {
        let mut out: Vec<json::Transaction> = Vec::new();
        let mut i: usize = 0;
        while i < self.mempool.transactions.len()
            invariant
                i <= self.mempool_entries().len(),
                out@.len() == i,
                forall|j: int|
                    0 <= j < i ==> {
                        &&& (#[trigger] out@[j]).hash@ == self.mempool_entries()[j].0@
                        &&& out@[j].size == self.mempool_entries()[j].1.size
                    },
            decreases self.mempool_entries().len() - i,
        {
            let entry = &self.mempool.transactions[i];
            out.push(json::Transaction { hash: entry.0.clone(), size: entry.1.size });
            i = i + 1;
        }
        out
    }

    /// Refresh the mempool cache against a full snapshot, then report if
    /// one is due. The window is untouched.
    pub fn update_mempool(&mut self, snapshot: &Vec<(String, StateTransaction)>, now_ms: u64) -> (r:
        Option<MempoolSummary>)
        requires
            old(self).wf(),
            mp_unique(snapshot@),
        ensures
            final(self).wf(),
            final(self).blocks_view() == old(self).blocks_view(),
            final(self).mempool_view() == merged(old(self).mempool_view(), mp_map(snapshot@)),
            (match r {
                Some(sum) => {
                    &&& report_due(
                        old(self).mempool_cache().last_log,
                        now_ms,
                        UPDATE_MEMPOOL_LOG_INTERVAL_MS,
                    )
                    &&& sum.size == snapshot@.len()
                    &&& sum.added as int == cap_add(
                        old(self).mempool_cache().added as int,
                        count_absent(snapshot@, old(self).mempool_view()),
                    )
                    &&& sum.removed as int == cap_add(
                        old(self).mempool_cache().removed as int,
                        count_absent(old(self).mempool_entries(), mp_map(snapshot@)),
                    )
                    &&& final(self).mempool_cache().added == 0
                    &&& final(self).mempool_cache().removed == 0
                    &&& final(self).mempool_cache().last_log == Some(now_ms)
                },
                None => {
                    &&& !report_due(
                        old(self).mempool_cache().last_log,
                        now_ms,
                        UPDATE_MEMPOOL_LOG_INTERVAL_MS,
                    )
                    &&& final(self).mempool_cache().added as int == cap_add(
                        old(self).mempool_cache().added as int,
                        count_absent(snapshot@, old(self).mempool_view()),
                    )
                    &&& final(self).mempool_cache().removed as int == cap_add(
                        old(self).mempool_cache().removed as int,
                        count_absent(old(self).mempool_entries(), mp_map(snapshot@)),
                    )
                    &&& final(self).mempool_cache().last_log == old(self).mempool_cache().last_log
                },
            }),
    {
        self.mempool.refresh(snapshot);
        self.mempool.report_if_due(now_ms, UPDATE_MEMPOOL_LOG_INTERVAL_MS)
    }
}

/// Law: once the window has reached its floor, advancing by one block
/// holds it exactly at the floor, and the chain stays contiguous. Together
/// with the exact window shapes in the mutators' contracts this pins the
/// window invariant: outside of initialization and mid-repair the length
/// never falls below the floor, and adjacent blocks always chain.
pub proof fn lemma_advance_holds_floor(s: Seq<StateBlock>, b: StateBlock)
    requires
        s.len() as int >= APP_BLOCKS_MINIMUM as int,
        state_chain_linked(s),
        links(s.last(), b),
    ensures
        evict_front(s).push(b).len() == APP_BLOCKS_MINIMUM as int,
        state_chain_linked(evict_front(s).push(b)),
{
    let ev = evict_front(s);
    let d = s.len() as int - ev.len() as int;
    let t = ev.push(b);
    assert forall|i: int| 0 <= i && i + 1 < t.len() implies links(#[trigger] t[i], t[i + 1]) by {
        if i + 1 < t.len() - 1 {
            assert(t[i] == s[d + i]);
            assert(t[i + 1] == s[d + i + 1]);
            assert(links(s[d + i], s[d + i + 1]));
        } else {
            assert(t[i] == s[s.len() - 1]);
            assert(t[i + 1] == b);
        }
    }
}

/// Law: one repair step lowers the locally known best height by exactly
/// one. With the window contiguous, dropping the tip leaves the previous
/// block, one height lower, as the new tip; so the repair loop — drop the
/// tip, refill to the floor, test the tip against the node's reported
/// height again — strictly descends and reaches a tip below any reported
/// height it is held against.
pub proof fn lemma_repair_lowers_tip(s: Seq<StateBlock>)
    requires
        s.len() >= 2,
        state_chain_linked(s),
    ensures
        s.drop_last().last().height + 1 == s.last().height,
{
    assert(links(s[s.len() - 2], s[s.len() - 1]));
    assert(s.drop_last().last() == s[s.len() - 2]);
}

/// Law: confirmation reconciliation is atomic with the tip advance — the
/// one post-state of a successful advance carries the appended block as
/// the tip and a mempool map from which every transaction that block
/// names is gone, so no state with the new tip but a stale pending set
/// ever exists to be observed.
pub proof fn lemma_advance_confirms(m: Map<Seq<char>, u32>, b: StateBlock)
    ensures
        forall|i: int|
            0 <= i < b.transactions@.len() ==> !m.remove_keys(key_set(b.transactions@)).dom().contains(
                (#[trigger] b.transactions@[i])@,
            ),
{
    assert forall|i: int| 0 <= i < b.transactions@.len() implies !m.remove_keys(
        key_set(b.transactions@),
    ).dom().contains((#[trigger] b.transactions@[i])@) by {
        assert(key_set(b.transactions@).contains(b.transactions@[i]@)) by {
            assert((b.transactions@[i])@ == b.transactions@[i]@);
        }
    }
}

/// The pacing of the steady-state loop: sleep for what remains of the
/// maximum delay after `elapsed_ms` of work, but never less than the
/// minimum. An iteration that overran the maximum still yields for the
/// minimum — the sleep never goes negative and never panics.
pub fn sleep_duration_ms(elapsed_ms: u64) -> (r: u64)
    ensures
        UPDATE_DELAY_MIN_MS <= r <= UPDATE_DELAY_MAX_MS,
        elapsed_ms >= UPDATE_DELAY_MAX_MS ==> r == UPDATE_DELAY_MIN_MS,
        elapsed_ms < UPDATE_DELAY_MAX_MS && UPDATE_DELAY_MAX_MS - elapsed_ms
            >= UPDATE_DELAY_MIN_MS ==> r == UPDATE_DELAY_MAX_MS - elapsed_ms,
        elapsed_ms < UPDATE_DELAY_MAX_MS && UPDATE_DELAY_MAX_MS - elapsed_ms
            < UPDATE_DELAY_MIN_MS ==> r == UPDATE_DELAY_MIN_MS,
{
    if elapsed_ms >= UPDATE_DELAY_MAX_MS {
        UPDATE_DELAY_MIN_MS
    } else {
        let remaining = UPDATE_DELAY_MAX_MS - elapsed_ms;
        if remaining >= UPDATE_DELAY_MIN_MS {
            remaining
        } else {
            UPDATE_DELAY_MIN_MS
        }
    }
}

} // verus!
