use chainview::state::{
    sleep_duration_ms, AppError, BlocksListSide, InitApplied, InitFetch, NextBlockOutcome, State,
    StateBlock, StateTransaction, UpdateDecision, APP_BLOCKS_MINIMUM, UPDATE_DELAY_MAX_MS,
    UPDATE_DELAY_MIN_MS,
};
use chainview::node::ResponseBlockchainInfo;

fn block(height: u32, hash: &str, prevhash: Option<&str>, txs: &[&str]) -> StateBlock {
    StateBlock {
        height,
        hash: hash.to_string(),
        prevhash: prevhash.map(|s| s.to_string()),
        transactions: txs.iter().map(|s| s.to_string()).collect(),
    }
}

/// A simulated node: a linear chain of blocks, lowest first.
struct SimNode {
    chain: Vec<StateBlock>,
}

impl SimNode {
    fn info(&self) -> ResponseBlockchainInfo {
        let best = self.chain.last().unwrap();
        ResponseBlockchainInfo {
            chain: "main".to_string(),
            blocks: best.height,
            bestblockhash: best.hash.clone(),
        }
    }

    fn by_hash(&self, hash: &str) -> Option<StateBlock> {
        self.chain.iter().find(|b| b.hash == hash).cloned()
    }

    fn by_height(&self, height: u32) -> Option<StateBlock> {
        self.chain.iter().find(|b| b.height == height).cloned()
    }
}

/// Drive the initialization loop against a simulated node until the window
/// reaches the floor, as the sync loop's bootstrap phase does.
fn run_init(state: &mut State, node: &SimNode, now: u64) -> Result<(), AppError> {
    loop {
        match state.init_request()? {
            InitFetch::Complete => return Ok(()),
            InitFetch::FetchBest => {
                let fetched = node.by_hash(&node.info().bestblockhash);
                match state.apply_init_block(fetched, now)? {
                    InitApplied::Added | InitApplied::Retry => {}
                }
            }
            InitFetch::FetchBlock(hash) => {
                let fetched = node.by_hash(&hash);
                match state.apply_init_block(fetched, now)? {
                    InitApplied::Added | InitApplied::Retry => {}
                }
            }
        }
    }
}

/// Build a simulated chain of `n + 1` blocks with heights `0..=n`.
fn linear_chain(n: u32) -> Vec<StateBlock> {
    let mut chain = Vec::new();
    for h in 0..=n {
        let hash = format!("hash{}", h);
        let prev = if h == 0 {
            None
        } else {
            Some(format!("hash{}", h - 1))
        };
        chain.push(StateBlock {
            height: h,
            hash,
            prevhash: prev.clone(),
            transactions: vec![format!("tx{}", h)],
        });
    }
    chain
}

fn window_heights(state: &State) -> Vec<u32> {
    let mut heights = Vec::new();
    let n = state.blocks_len();
    // walk down from the tip using only public accessors
    let tip = state.tip().clone();
    let mut h = tip.height + 1 - n as u32;
    while h <= tip.height {
        heights.push(h);
        h += 1;
    }
    heights
}

#[test]
fn end_to_end_bootstrap_and_advance() {
    // NodeClient simulated with chain #0..#10; bootstrap yields [#5..#10];
    // inject #11; advance; window becomes [#6..#11] and the tip is #11.
    let mut node = SimNode { chain: linear_chain(10) };
    let mut state = State::new();
    run_init(&mut state, &node, 1).unwrap();
    assert_eq!(state.blocks_len(), APP_BLOCKS_MINIMUM);
    assert_eq!(state.tip().height, 10);
    assert_eq!(window_heights(&state), vec![5, 6, 7, 8, 9, 10]);

    node.chain.push(block(11, "hash11", Some("hash10"), &["tx11"]));
    let info = node.info();
    match state.update_decision(&info) {
        UpdateDecision::FetchHeight(h) => {
            assert_eq!(h, 11);
            let fetched = node.by_height(h);
            match state.apply_next_block(fetched, 2).unwrap() {
                NextBlockOutcome::Appended(_) => {}
                other => panic!("expected append, got {:?}", other),
            }
        }
        other => panic!("expected fetch decision, got {:?}", other),
    }
    assert_eq!(state.blocks_len(), APP_BLOCKS_MINIMUM);
    assert_eq!(state.tip().height, 11);
    assert_eq!(state.tip().hash, "hash11");
    assert_eq!(window_heights(&state), vec![6, 7, 8, 9, 10, 11]);
}

#[test]
fn no_change_when_best_hash_matches() {
    let node = SimNode { chain: linear_chain(10) };
    let mut state = State::new();
    run_init(&mut state, &node, 1).unwrap();
    let info = node.info();
    assert_eq!(state.update_decision(&info), UpdateDecision::NoChange);
}

#[test]
fn reorg_repair_converges() {
    // Window holds heights [100..105]; the node then reports a new best
    // block at height 104 with a different hash. Repeated repair steps
    // must converge to a window matching the alternate chain.
    let mut chain = Vec::new();
    for h in 90..=105u32 {
        let prev = if h == 90 { None } else { Some(format!("hash{}", h - 1)) };
        chain.push(StateBlock {
            height: h,
            hash: format!("hash{}", h),
            prevhash: prev,
            transactions: Vec::new(),
        });
    }
    let mut node = SimNode { chain };
    let mut state = State::new();
    run_init(&mut state, &node, 1).unwrap();
    assert_eq!(window_heights(&state), vec![100, 101, 102, 103, 104, 105]);

    // The node reorganizes: blocks 104 and 105 are replaced by alt104.
    node.chain.pop();
    node.chain.pop();
    node.chain.push(block(104, "alt104", Some("hash103"), &[]));

    let info = node.info();
    assert_eq!(info.blocks, 104);
    match state.update_decision(&info) {
        UpdateDecision::Repair => {}
        other => panic!("expected repair, got {:?}", other),
    }
    // The repair loop: drop the tip and re-initialize while the tip's
    // height is still at or above the node's reported height.
    let mut rounds = 0;
    while state.needs_repair(&info) {
        state.remove_best_block();
        run_init(&mut state, &node, 2).unwrap();
        assert_eq!(state.blocks_len(), APP_BLOCKS_MINIMUM);
        rounds += 1;
        assert!(rounds < 16, "repair did not converge");
    }
    // Tip is now strictly below the reported height; fetch the next block.
    let next = node.by_height(state.tip().height + 1);
    match state.apply_next_block(next, 3).unwrap() {
        NextBlockOutcome::Appended(_) => {}
        other => panic!("expected append, got {:?}", other),
    }
    assert_eq!(state.tip().height, 104);
    assert_eq!(state.tip().hash, "alt104");
    assert_eq!(window_heights(&state), vec![99, 100, 101, 102, 103, 104]);
}

#[test]
fn divergence_drops_tip_and_recovers() {
    // A candidate whose parent is not the local tip signals divergence:
    // the tip leaves, initialization restores the floor.
    let node = SimNode { chain: linear_chain(10) };
    let mut state = State::new();
    run_init(&mut state, &node, 1).unwrap();

    let stranger = block(11, "other11", Some("otherparent"), &[]);
    match state.apply_next_block(Some(stranger), 2).unwrap() {
        NextBlockOutcome::Diverged => {}
        other => panic!("expected divergence, got {:?}", other),
    }
    assert_eq!(state.blocks_len(), APP_BLOCKS_MINIMUM - 1);
    assert_eq!(state.tip().height, 9);
    run_init(&mut state, &node, 3).unwrap();
    assert_eq!(window_heights(&state), vec![4, 5, 6, 7, 8, 9]);
}

#[test]
fn next_block_without_parent_hash_is_fatal() {
    let node = SimNode { chain: linear_chain(10) };
    let mut state = State::new();
    run_init(&mut state, &node, 1).unwrap();
    let orphan = block(11, "hash11", None, &[]);
    match state.apply_next_block(Some(orphan), 2) {
        Err(AppError::InvalidBlockchain) => {}
        other => panic!("expected invalid blockchain, got {:?}", other),
    }
    // nothing changed
    assert_eq!(state.tip().height, 10);
}

#[test]
fn next_block_not_found_is_noop() {
    let node = SimNode { chain: linear_chain(10) };
    let mut state = State::new();
    run_init(&mut state, &node, 1).unwrap();
    match state.apply_next_block(None, 2).unwrap() {
        NextBlockOutcome::NotFound => {}
        other => panic!("expected not found, got {:?}", other),
    }
    assert_eq!(state.tip().height, 10);
    assert_eq!(state.blocks_len(), APP_BLOCKS_MINIMUM);
}

#[test]
fn genesis_before_floor_is_not_enough_blocks() {
    // A chain shorter than the window floor runs into genesis while
    // initializing: the terminal not-enough-blocks error.
    let node = SimNode { chain: linear_chain(3) };
    let mut state = State::new();
    match run_init(&mut state, &node, 1) {
        Err(AppError::NotEnoughBlocks) => {}
        other => panic!("expected not enough blocks, got {:?}", other),
    }
}

#[test]
fn init_vanished_ancestor_is_fatal() {
    // A non-empty window whose referenced parent the node cannot serve:
    // invalid blockchain.
    let mut state = State::new();
    let b = block(50, "hash50", Some("hash49"), &[]);
    match state.apply_init_block(Some(b), 1).unwrap() {
        InitApplied::Added => {}
        other => panic!("expected add, got {:?}", other),
    }
    match state.apply_init_block(None, 2) {
        Err(AppError::InvalidBlockchain) => {}
        other => panic!("expected invalid blockchain, got {:?}", other),
    }
}

#[test]
fn init_not_found_on_empty_window_retries() {
    let mut state = State::new();
    match state.apply_init_block(None, 1).unwrap() {
        InitApplied::Retry => {}
        other => panic!("expected retry, got {:?}", other),
    }
    assert_eq!(state.blocks_len(), 0);
}

#[test]
fn init_mismatched_parent_is_fatal() {
    let mut state = State::new();
    let b = block(50, "hash50", Some("hash49"), &[]);
    state.apply_init_block(Some(b), 1).unwrap();
    // right height, wrong hash
    let wrong = block(49, "imposter49", Some("hash48"), &[]);
    match state.apply_init_block(Some(wrong), 2) {
        Err(AppError::InvalidBlockchain) => {}
        other => panic!("expected invalid blockchain, got {:?}", other),
    }
    // wrong height
    let wrong_height = block(48, "hash49", Some("hash47"), &[]);
    match state.apply_init_block(Some(wrong_height), 3) {
        Err(AppError::InvalidBlockchain) => {}
        other => panic!("expected invalid blockchain, got {:?}", other),
    }
}

#[test]
fn confirmation_reconciliation_is_atomic_with_advance() {
    // A mempool holding hash H; advancing with a block confirming H must
    // leave a state whose tip is the new block and whose mempool no
    // longer holds H.
    let node = SimNode { chain: linear_chain(10) };
    let mut state = State::new();
    run_init(&mut state, &node, 1).unwrap();

    let snapshot = vec![
        ("txH".to_string(), StateTransaction { size: 250 }),
        ("txK".to_string(), StateTransaction { size: 113 }),
    ];
    let _ = state.update_mempool(&snapshot, 2);
    let pending: Vec<String> = state.get_mempool().into_iter().map(|t| t.hash).collect();
    assert!(pending.contains(&"txH".to_string()));

    let confirming = block(11, "hash11", Some("hash10"), &["txH"]);
    match state.apply_next_block(Some(confirming), 3).unwrap() {
        NextBlockOutcome::Appended(confirmed) => assert_eq!(confirmed, 1),
        other => panic!("expected append, got {:?}", other),
    }
    assert_eq!(state.tip().hash, "hash11");
    let pending: Vec<String> = state.get_mempool().into_iter().map(|t| t.hash).collect();
    assert!(!pending.contains(&"txH".to_string()));
    assert!(pending.contains(&"txK".to_string()));
}

#[test]
fn add_block_holds_window_at_floor() {
    let node = SimNode { chain: linear_chain(10) };
    let mut state = State::new();
    run_init(&mut state, &node, 1).unwrap();
    assert_eq!(state.blocks_len(), APP_BLOCKS_MINIMUM);
    let b = block(11, "hash11", Some("hash10"), &[]);
    state.add_block(b, BlocksListSide::Back, 2);
    assert_eq!(state.blocks_len(), APP_BLOCKS_MINIMUM);
    assert_eq!(state.tip().height, 11);
}

#[test]
fn pacing_clamps_between_min_and_max() {
    // Work faster than the budget leaves the remainder, floored at the
    // minimum; work slower than the budget still sleeps the minimum.
    assert_eq!(sleep_duration_ms(0), UPDATE_DELAY_MAX_MS);
    assert_eq!(sleep_duration_ms(10), 15);
    assert_eq!(sleep_duration_ms(21), UPDATE_DELAY_MIN_MS);
    assert_eq!(sleep_duration_ms(UPDATE_DELAY_MAX_MS), UPDATE_DELAY_MIN_MS);
    assert_eq!(sleep_duration_ms(100), UPDATE_DELAY_MIN_MS);
    assert_eq!(sleep_duration_ms(u64::MAX), UPDATE_DELAY_MIN_MS);
}
