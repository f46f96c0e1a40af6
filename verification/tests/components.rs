use chainview::block::{Block, BlockError, ResponseBlockHeader};
use chainview::json;
use chainview::node::{
    check_block_hash, check_block_height, check_response, check_same_node,
    classify_blockhash_result, retry_height_lookup, warming_up, BitcoindError, Response,
    ResponseBlock, ResponseBlockTransaction, ResponseBlockchainInfo, ResponseError,
    ResponseRawMempoolTransaction,
};
use chainview::signals::{absorb_poll, LatchPoll, ShutdownReceiver};
use chainview::state::{
    StateBlock, StateMempool, StateTransaction, UPDATE_MEMPOOL_LOG_INTERVAL_MS,
};
use chainview::window::AppState;

fn entry(hash: &str, size: u32) -> (String, StateTransaction) {
    (hash.to_string(), StateTransaction { size })
}

#[test]
fn refresh_diffs_and_counts() {
    let mut pool = StateMempool::new();
    let snapshot = vec![entry("a", 10), entry("b", 20)];
    pool.refresh(&snapshot);
    assert_eq!(pool.added, 2);
    assert_eq!(pool.removed, 0);
    assert_eq!(pool.transactions.len(), 2);

    // "a" leaves, "c" arrives, "b" stays with a changed snapshot size,
    // which must not overwrite the cached size.
    let snapshot = vec![entry("b", 999), entry("c", 30)];
    pool.refresh(&snapshot);
    assert_eq!(pool.added, 3);
    assert_eq!(pool.removed, 1);
    let b = pool.transactions.iter().find(|e| e.0 == "b").unwrap();
    assert_eq!(b.1.size, 20);
    let c = pool.transactions.iter().find(|e| e.0 == "c").unwrap();
    assert_eq!(c.1.size, 30);
}

#[test]
fn refresh_twice_with_same_snapshot_adds_nothing() {
    // Idempotence: after one refresh, a second refresh with the same
    // snapshot produces zero additional added/removed counts and leaves
    // the entries as they were.
    let mut pool = StateMempool::new();
    let first = vec![entry("a", 10)];
    pool.refresh(&first);
    let snapshot = vec![entry("a", 11), entry("b", 20), entry("c", 30)];
    pool.refresh(&snapshot);
    let added = pool.added;
    let removed = pool.removed;
    let entries: Vec<(String, u32)> =
        pool.transactions.iter().map(|e| (e.0.clone(), e.1.size)).collect();
    pool.refresh(&snapshot);
    assert_eq!(pool.added, added);
    assert_eq!(pool.removed, removed);
    let entries_after: Vec<(String, u32)> =
        pool.transactions.iter().map(|e| (e.0.clone(), e.1.size)).collect();
    assert_eq!(entries, entries_after);
}

#[test]
fn report_if_due_resets_counters() {
    let mut pool = StateMempool::new();
    let snapshot = vec![entry("a", 10), entry("b", 20)];
    pool.refresh(&snapshot);
    // never reported: due immediately
    let sum = pool.report_if_due(1000, UPDATE_MEMPOOL_LOG_INTERVAL_MS).unwrap();
    assert_eq!(sum.size, 2);
    assert_eq!(sum.added, 2);
    assert_eq!(sum.removed, 0);
    assert_eq!(pool.added, 0);
    assert_eq!(pool.removed, 0);
    // not yet due again
    assert!(pool.report_if_due(1000 + UPDATE_MEMPOOL_LOG_INTERVAL_MS, UPDATE_MEMPOOL_LOG_INTERVAL_MS).is_none());
    // due after the interval passed
    let sum = pool
        .report_if_due(1001 + UPDATE_MEMPOOL_LOG_INTERVAL_MS, UPDATE_MEMPOOL_LOG_INTERVAL_MS)
        .unwrap();
    assert_eq!(sum.size, 2);
    // a clock that jumped backwards reads as not due
    assert!(pool.report_if_due(0, UPDATE_MEMPOOL_LOG_INTERVAL_MS).is_none());
}

#[test]
fn reconcile_confirmed_removes_named_hashes() {
    let mut pool = StateMempool::new();
    let snapshot = vec![entry("a", 10), entry("b", 20), entry("c", 30)];
    pool.refresh(&snapshot);
    let confirmed = vec!["a".to_string(), "c".to_string(), "zz".to_string()];
    let n = pool.reconcile_confirmed(&confirmed);
    assert_eq!(n, 2);
    assert_eq!(pool.transactions.len(), 1);
    assert_eq!(pool.transactions[0].0, "b");
}

#[test]
fn window_push_front_validates_links() {
    let mut w = AppState::default();
    assert_eq!(w.blocks_len(), 0);
    assert!(w.blocks_first().is_none());
    assert!(w.blocks_last().is_none());

    let b5 = Block { height: 5, hash: "h5".to_string(), prevhash: Some("h4".to_string()) };
    w.blocks_push_front(b5).unwrap();

    // wrong height
    let wrong = Block { height: 3, hash: "h3".to_string(), prevhash: Some("h2".to_string()) };
    match w.blocks_push_front(wrong) {
        Err(BlockError::HeightMismatch) => {}
        other => panic!("expected height mismatch, got {:?}", other),
    }
    // right height, wrong hash
    let wrong = Block { height: 4, hash: "imposter".to_string(), prevhash: Some("h3".to_string()) };
    match w.blocks_push_front(wrong) {
        Err(BlockError::HashMismatch) => {}
        other => panic!("expected hash mismatch, got {:?}", other),
    }
    // fits
    let b4 = Block { height: 4, hash: "h4".to_string(), prevhash: Some("h3".to_string()) };
    let first = w.blocks_push_front(b4).unwrap();
    assert_eq!(first.height, 4);
    assert_eq!(w.blocks_len(), 2);
    assert_eq!(w.blocks_first().unwrap().height, 4);
    assert_eq!(w.blocks_last().unwrap().height, 5);
}

#[test]
fn window_push_back_validates_links() {
    let mut w = AppState::default();
    let b5 = Block { height: 5, hash: "h5".to_string(), prevhash: Some("h4".to_string()) };
    w.blocks_push_back(b5).unwrap();

    let wrong = Block { height: 7, hash: "h7".to_string(), prevhash: Some("h6".to_string()) };
    match w.blocks_push_back(wrong) {
        Err(BlockError::HeightMismatch) => {}
        other => panic!("expected height mismatch, got {:?}", other),
    }
    let wrong = Block { height: 6, hash: "h6".to_string(), prevhash: Some("imposter".to_string()) };
    match w.blocks_push_back(wrong) {
        Err(BlockError::HashMismatch) => {}
        other => panic!("expected hash mismatch, got {:?}", other),
    }
    let no_parent = Block { height: 6, hash: "h6".to_string(), prevhash: None };
    match w.blocks_push_back(no_parent) {
        Err(BlockError::HashMismatch) => {}
        other => panic!("expected hash mismatch, got {:?}", other),
    }
    let b6 = Block { height: 6, hash: "h6".to_string(), prevhash: Some("h5".to_string()) };
    let last = w.blocks_push_back(b6).unwrap();
    assert_eq!(last.height, 6);
    assert_eq!(w.blocks_last().unwrap().height, 6);
}

#[test]
fn window_pop_and_reset() {
    let mut w = AppState::default();
    // popping an empty window is harmless
    w.blocks_pop_first();
    w.blocks_pop_last();
    let b1 = Block { height: 1, hash: "h1".to_string(), prevhash: Some("h0".to_string()) };
    let b2 = Block { height: 2, hash: "h2".to_string(), prevhash: Some("h1".to_string()) };
    w.blocks_push_back(b1).unwrap();
    w.blocks_push_back(b2).unwrap();
    w.blocks_pop_first();
    assert_eq!(w.blocks_len(), 1);
    assert_eq!(w.blocks_first().unwrap().height, 2);
    w.blocks_pop_last();
    assert_eq!(w.blocks_len(), 0);
    let b9 = Block { height: 9, hash: "h9".to_string(), prevhash: Some("h8".to_string()) };
    w.blocks_push_back(b9).unwrap();
    w.reset();
    assert_eq!(w.blocks_len(), 0);
}

#[test]
fn rpc_response_checks() {
    let ok: Response<u32> = Response { id: 7, error: None, result: Some(42) };
    assert_eq!(check_response(ok, 7).unwrap(), 42);

    let wrong_id: Response<u32> = Response { id: 8, error: None, result: Some(42) };
    match check_response(wrong_id, 7) {
        Err(BitcoindError::NonceMismatch) => {}
        other => panic!("expected nonce mismatch, got {:?}", other),
    }

    let failed: Response<u32> = Response {
        id: 7,
        error: Some(ResponseError { code: -5, message: "not found".to_string() }),
        result: None,
    };
    match check_response(failed, 7) {
        Err(BitcoindError::ResultRPC(e)) => assert_eq!(e.code, -5),
        other => panic!("expected rpc error, got {:?}", other),
    }

    let empty: Response<u32> = Response { id: 7, error: None, result: None };
    match check_response(empty, 7) {
        Err(BitcoindError::ResultNotFound) => {}
        other => panic!("expected not found, got {:?}", other),
    }
}

#[test]
fn blockhash_height_out_of_range_is_none() {
    let hit = classify_blockhash_result(Ok("feed".to_string()));
    assert_eq!(hit.unwrap(), Some("feed".to_string()));

    let out_of_range = classify_blockhash_result(Err(BitcoindError::ResultRPC(ResponseError {
        code: -8,
        message: "Block height out of range".to_string(),
    })));
    assert_eq!(out_of_range.unwrap(), None);

    let other = classify_blockhash_result(Err(BitcoindError::ResultRPC(ResponseError {
        code: -32600,
        message: "bad request".to_string(),
    })));
    match other {
        Err(BitcoindError::ResultRPC(e)) => assert_eq!(e.code, -32600),
        other => panic!("expected passthrough, got {:?}", other),
    }
}

#[test]
fn warming_up_and_retry_classifiers() {
    let warm = BitcoindError::ResultRPC(ResponseError {
        code: -28,
        message: "Verifying blocks...".to_string(),
    });
    assert!(warming_up(&warm));
    assert!(!warming_up(&BitcoindError::ResultNotFound));
    assert!(retry_height_lookup(&BitcoindError::ResultMismatch));
    assert!(!retry_height_lookup(&warm));
}

#[test]
fn same_node_check_compares_chain_info() {
    let a = ResponseBlockchainInfo {
        chain: "main".to_string(),
        blocks: 100,
        bestblockhash: "hash100".to_string(),
    };
    let b = ResponseBlockchainInfo {
        chain: "main".to_string(),
        blocks: 100,
        bestblockhash: "hash100".to_string(),
    };
    assert!(check_same_node(&a, &b).is_ok());
    let c = ResponseBlockchainInfo {
        chain: "main".to_string(),
        blocks: 101,
        bestblockhash: "hash101".to_string(),
    };
    match check_same_node(&a, &c) {
        Err(BitcoindError::ClientMismatch) => {}
        other => panic!("expected client mismatch, got {:?}", other),
    }
}

fn sample_response_block() -> ResponseBlock {
    ResponseBlock {
        hash: "deadbeef".to_string(),
        height: 77,
        previousblockhash: Some("feedface".to_string()),
        size: 1234,
        transactions: vec![
            ResponseBlockTransaction { hash: "t1".to_string(), size: 300 },
            ResponseBlockTransaction { hash: "t2".to_string(), size: 150 },
        ],
    }
}

#[test]
fn block_revalidation_by_height_and_hash() {
    let blk = sample_response_block();
    assert!(check_block_height(blk.clone(), 77).is_ok());
    match check_block_height(blk.clone(), 78) {
        Err(BitcoindError::ResultMismatch) => {}
        other => panic!("expected mismatch, got {:?}", other),
    }
    assert!(check_block_hash(blk.clone(), &"deadbeef".to_string()).is_ok());
    match check_block_hash(blk, &"cafe".to_string()) {
        Err(BitcoindError::ResultMismatch) => {}
        other => panic!("expected mismatch, got {:?}", other),
    }
}

#[test]
fn conversions_keep_fields() {
    let blk = sample_response_block();
    let wire = json::Block::from_response(blk.clone());
    assert_eq!(wire.height, 77);
    assert_eq!(wire.hash, "deadbeef");
    assert_eq!(wire.size, 1234);
    assert_eq!(wire.transactions.len(), 2);
    assert_eq!(wire.transactions[0].hash, "t1");
    assert_eq!(wire.transactions[0].size, 300);
    assert_eq!(wire.transactions[1].hash, "t2");
    assert_eq!(wire.transactions[1].size, 150);

    let sb = StateBlock::from_response(blk);
    assert_eq!(sb.height, 77);
    assert_eq!(sb.hash, "deadbeef");
    assert_eq!(sb.prevhash.as_deref(), Some("feedface"));
    assert_eq!(sb.transactions, vec!["t1".to_string(), "t2".to_string()]);

    let st: StateTransaction = ResponseRawMempoolTransaction { size: 512 }.into();
    assert_eq!(st.size, 512);

    let header = ResponseBlockHeader {
        hash: "aa".to_string(),
        height: 9,
        previousblockhash: Some("bb".to_string()),
        nextblockhash: None,
    };
    let b = Block::from(header);
    assert_eq!(b.height, 9);
    assert_eq!(b.hash, "aa");
    assert_eq!(b.prevhash.as_deref(), Some("bb"));
}

#[test]
fn poll_policy_absorbs_signal() {
    // A message or a lagged cursor is the signal; an empty or closed
    // channel leaves the previous observation standing.
    assert!(absorb_poll(false, LatchPoll::Message));
    assert!(absorb_poll(false, LatchPoll::Lagged));
    assert!(!absorb_poll(false, LatchPoll::Empty));
    assert!(!absorb_poll(false, LatchPoll::Closed));
    assert!(absorb_poll(true, LatchPoll::Message));
    assert!(absorb_poll(true, LatchPoll::Empty));
    assert!(absorb_poll(true, LatchPoll::Closed));
}

#[test]
fn shutdown_latch_signals_once_and_for_all() {
    let mut latch = ShutdownReceiver::new();
    assert!(!latch.is_recv());

    let mut observer = latch.clone_handle();
    assert!(!observer.is_recv());

    latch.set();
    // signaling twice neither panics nor un-signals anybody
    latch.set();

    assert!(observer.is_recv());
    assert!(observer.is_recv());
    assert!(latch.is_recv());

    // a handle cloned after the signal fired still observes it
    let mut late = latch.clone_handle();
    assert!(late.is_recv());
}

#[test]
fn shutdown_wait_returns_after_signal() {
    // A subscriber blocked on the channel is released by the signal.
    let mut latch = ShutdownReceiver::new();
    let mut rx = latch.subscribe_receiver();
    latch.set();
    let rt = tokio::runtime::Builder::new_current_thread().build().unwrap();
    rt.block_on(async {
        rx.recv().await.unwrap();
    });
    assert!(latch.is_recv());
}
