use blockchainlib::{check_difficulty, Block, BlockValidationErr, Blockchain, Digest, Transaction};

fn id(n: u8) -> Digest {
    let mut h = [0u8; 32];
    h[0] = n;
    h
}

fn block(index: u32, timestamp: u128, hash: Digest, prev: Digest, txs: Vec<Transaction>) -> Block {
    Block { index, timestamp, hash, prev_block_hash: prev, transactions: txs }
}

fn coinbase(outputs: Vec<Digest>, value: u64) -> Transaction {
    Transaction { inputs: vec![], outputs, input_value: 0, output_value: value }
}

fn transfer(inputs: Vec<Digest>, outputs: Vec<Digest>, input_value: u64, output_value: u64) -> Transaction {
    Transaction { inputs, outputs, input_value, output_value }
}

/// A ledger whose genesis block created the outputs 1 (value 50) and 2 (value 30).
fn funded() -> Blockchain {
    let mut chain = Blockchain::new(u128::MAX);
    let genesis = block(0, 100, id(200), [0u8; 32], vec![coinbase(vec![id(1), id(2)], 80)]);
    assert_eq!(chain.update_with_block(genesis), Ok(()));
    chain
}

fn unspent_sorted(chain: &Blockchain) -> Vec<Digest> {
    let mut v = chain.unspent_outputs().clone();
    v.sort();
    v
}

#[test]
fn scenario_genesis_spend_and_replay() {
    let mut chain = Blockchain::new(u128::MAX);
    let genesis = block(0, 1, id(100), [0u8; 32], vec![coinbase(vec![id(1)], 50)]);
    assert_eq!(chain.update_with_block(genesis), Ok(()));
    assert_eq!(unspent_sorted(&chain), vec![id(1)]);

    let b1 = block(
        1,
        2,
        id(101),
        id(100),
        vec![coinbase(vec![id(3)], 10), transfer(vec![id(1)], vec![id(2)], 50, 40)],
    );
    assert_eq!(chain.update_with_block(b1), Ok(()));
    assert_eq!(unspent_sorted(&chain), vec![id(2), id(3)]);
    assert!(!chain.is_unspent(&id(1)));

    let replay = block(
        2,
        3,
        id(102),
        id(101),
        vec![coinbase(vec![id(5)], 10), transfer(vec![id(1)], vec![id(4)], 50, 40)],
    );
    assert_eq!(chain.update_with_block(replay), Err(BlockValidationErr::InvalidInput));
    assert_eq!(chain.blocks().len(), 2);
    assert_eq!(unspent_sorted(&chain), vec![id(2), id(3)]);
}

#[test]
fn new_ledger_is_empty() {
    let chain = Blockchain::new(7);
    assert_eq!(chain.blocks().len(), 0);
    assert!(chain.unspent_outputs().is_empty());
    assert_eq!(chain.difficulty(), 7);
}

#[test]
fn index_must_be_next_slot() {
    let mut chain = Blockchain::new(u128::MAX);
    let early = block(1, 1, id(100), [0u8; 32], vec![]);
    assert_eq!(chain.update_with_block(early), Err(BlockValidationErr::MismatchedIndex));
    let mut chain = funded();
    let again = block(0, 200, id(201), id(200), vec![]);
    assert_eq!(chain.update_with_block(again), Err(BlockValidationErr::MismatchedIndex));
    let skip = block(2, 200, id(201), id(200), vec![]);
    assert_eq!(chain.update_with_block(skip), Err(BlockValidationErr::MismatchedIndex));
    assert_eq!(chain.blocks().len(), 1);
}

#[test]
fn hash_must_meet_difficulty() {
    let mut chain = Blockchain::new(5);
    let mut hard = id(100);
    hard[16] = 5;
    let b = block(0, 1, hard, [0u8; 32], vec![]);
    assert_eq!(chain.update_with_block(b), Err(BlockValidationErr::InvalidHash));
    hard[16] = 4;
    let b = block(0, 1, hard, [0u8; 32], vec![]);
    assert_eq!(chain.update_with_block(b), Ok(()));
}

#[test]
fn difficulty_reads_upper_half_little_endian() {
    let mut h = [0xFFu8; 32];
    for b in h.iter_mut().skip(16) {
        *b = 0;
    }
    assert!(check_difficulty(&h, 1));
    assert!(!check_difficulty(&h, 0));
    h[16] = 5;
    assert!(check_difficulty(&h, 6));
    assert!(!check_difficulty(&h, 5));
    h[16] = 0;
    h[31] = 1;
    assert!(!check_difficulty(&h, 1u128 << 120));
    assert!(check_difficulty(&h, (1u128 << 120) + 1));
    h[17] = 2;
    assert!(!check_difficulty(&h, (1u128 << 120) + 512));
    assert!(check_difficulty(&h, (1u128 << 120) + 513));
    assert!(!check_difficulty(&[0xFFu8; 32], u128::MAX));
}

#[test]
fn genesis_needs_zero_sentinel() {
    let mut chain = Blockchain::new(u128::MAX);
    let mut prev = [0u8; 32];
    prev[31] = 1;
    let b = block(0, 1, id(100), prev, vec![coinbase(vec![id(1)], 50)]);
    assert_eq!(chain.update_with_block(b), Err(BlockValidationErr::InvalidGenesisBlockFormat));
    assert_eq!(chain.blocks().len(), 0);
}

#[test]
fn timestamp_must_increase() {
    let mut chain = funded();
    let same = block(1, 100, id(201), id(200), vec![]);
    assert_eq!(chain.update_with_block(same), Err(BlockValidationErr::AchronologicalTimestamp));
    let earlier = block(1, 99, id(201), id(7), vec![transfer(vec![id(9)], vec![], 0, 0)]);
    assert_eq!(chain.update_with_block(earlier), Err(BlockValidationErr::AchronologicalTimestamp));
    let later = block(1, 101, id(201), id(200), vec![]);
    assert_eq!(chain.update_with_block(later), Ok(()));
}

#[test]
fn link_to_previous_hash() {
    let mut chain = funded();
    let b = block(1, 200, id(201), id(199), vec![]);
    assert_eq!(chain.update_with_block(b), Err(BlockValidationErr::InvalidHash));
}

#[test]
fn first_transaction_must_be_coinbase() {
    let mut chain = funded();
    let b = block(1, 200, id(201), id(200), vec![transfer(vec![id(1)], vec![id(3)], 50, 50)]);
    assert_eq!(chain.update_with_block(b), Err(BlockValidationErr::InvalidCoinbaseTransaction));
}

#[test]
fn unknown_input_is_refused() {
    let mut chain = funded();
    let b = block(
        1,
        200,
        id(201),
        id(200),
        vec![coinbase(vec![id(9)], 0), transfer(vec![id(1), id(77)], vec![id(3)], 50, 50)],
    );
    assert_eq!(chain.update_with_block(b), Err(BlockValidationErr::InvalidInput));
}

#[test]
fn double_spend_within_block() {
    let mut chain = funded();
    let b = block(
        1,
        200,
        id(201),
        id(200),
        vec![
            coinbase(vec![id(9)], 0),
            transfer(vec![id(1)], vec![id(3)], 50, 50),
            transfer(vec![id(1)], vec![id(4)], 50, 50),
        ],
    );
    assert_eq!(chain.update_with_block(b), Err(BlockValidationErr::InvalidInput));
    assert_eq!(unspent_sorted(&chain), vec![id(1), id(2)]);
}

#[test]
fn output_exceeding_input_is_refused() {
    let mut chain = funded();
    let b = block(
        1,
        200,
        id(201),
        id(200),
        vec![coinbase(vec![id(9)], 0), transfer(vec![id(1)], vec![id(3)], 50, 51)],
    );
    assert_eq!(chain.update_with_block(b), Err(BlockValidationErr::InsufficientInputValue));
}

#[test]
fn coinbase_must_cover_fees() {
    let mut chain = funded();
    let txs = vec![
        coinbase(vec![id(9)], 14),
        transfer(vec![id(1)], vec![id(3)], 50, 40),
        transfer(vec![id(2)], vec![id(4)], 30, 25),
    ];
    let b = block(1, 200, id(201), id(200), txs.clone());
    assert_eq!(chain.update_with_block(b), Err(BlockValidationErr::InvalidCoinbaseTransaction));
    let mut txs = txs;
    txs[0] = coinbase(vec![id(9)], 15);
    let b = block(1, 200, id(201), id(200), txs);
    assert_eq!(chain.update_with_block(b), Ok(()));
    assert_eq!(unspent_sorted(&chain), vec![id(3), id(4), id(9)]);
}

#[test]
fn fees_beyond_u64_are_summed_exactly() {
    let mut chain = Blockchain::new(u128::MAX);
    let genesis = block(0, 1, id(100), [0u8; 32], vec![coinbase(vec![id(1), id(2)], u64::MAX)]);
    assert_eq!(chain.update_with_block(genesis), Ok(()));
    let b = block(
        1,
        2,
        id(101),
        id(100),
        vec![
            coinbase(vec![id(9)], u64::MAX),
            transfer(vec![id(1)], vec![], u64::MAX, 0),
            transfer(vec![id(2)], vec![], 1, 0),
        ],
    );
    assert_eq!(chain.update_with_block(b), Err(BlockValidationErr::InvalidCoinbaseTransaction));
}

#[test]
fn rejected_block_leaves_ledger_unchanged() {
    let mut chain = funded();
    let before = unspent_sorted(&chain);
    let b = block(
        1,
        200,
        id(201),
        id(200),
        vec![
            coinbase(vec![id(9)], 100),
            transfer(vec![id(1)], vec![id(3)], 50, 50),
            transfer(vec![id(2)], vec![id(4)], 30, 31),
        ],
    );
    assert_eq!(chain.update_with_block(b), Err(BlockValidationErr::InsufficientInputValue));
    assert_eq!(chain.blocks().len(), 1);
    assert_eq!(unspent_sorted(&chain), before);
    assert!(chain.is_unspent(&id(1)));
    assert!(!chain.is_unspent(&id(3)));
}

#[test]
fn block_without_transactions_is_accepted() {
    let mut chain = funded();
    let b = block(1, 200, id(201), id(200), vec![]);
    assert_eq!(chain.update_with_block(b), Ok(()));
    assert_eq!(chain.blocks().len(), 2);
    assert_eq!(chain.blocks()[1].index, 1);
    assert_eq!(unspent_sorted(&chain), vec![id(1), id(2)]);
}

#[test]
fn spent_output_created_again_can_be_spent() {
    let mut chain = funded();
    let b1 = block(
        1,
        200,
        id(201),
        id(200),
        vec![coinbase(vec![id(1)], 0), transfer(vec![id(1)], vec![id(3)], 50, 50)],
    );
    assert_eq!(chain.update_with_block(b1), Ok(()));
    assert!(chain.is_unspent(&id(1)));
    let b2 = block(
        2,
        300,
        id(202),
        id(201),
        vec![coinbase(vec![], 0), transfer(vec![id(1)], vec![id(4)], 0, 0)],
    );
    assert_eq!(chain.update_with_block(b2), Ok(()));
    assert_eq!(unspent_sorted(&chain), vec![id(2), id(3), id(4)]);
}

#[test]
fn coinbase_is_a_transaction_without_inputs() {
    assert!(coinbase(vec![id(1)], 5).is_coinbase());
    assert!(!transfer(vec![id(1)], vec![], 5, 5).is_coinbase());
}
