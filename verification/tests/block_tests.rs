use fs_blockchain::blockchain::data_block::Block;

#[test]
fn test_block_creation() {
    let block = Block::new(0, "Первый блок".to_string(), "0".to_string());

    assert_eq!(block.index, 0);
    assert!(!block.timestamp.is_empty());
    assert_eq!(block.data, "Первый блок".to_string());
    assert!(!block.hash.is_empty());
}

#[test]
fn test_block_hash_calculation() {
    let block1 = Block::new(1, "Данные".to_string(), "0".to_string());
    let mut block2 = block1.clone();
    block2.nonce += 1;

    assert_ne!(block1.calculate_hash(), block2.calculate_hash());
}

#[test]
fn test_mine() {
    let mut block = Block::new(2, "Майнинг тест".to_string(), "0".to_string());
    let difficulty = 2;
    block.mine(difficulty);

    assert!(block.hash.starts_with(&"0".repeat(difficulty)));
}

#[test]
fn data_block_hash_is_self_consistent() {
    let block = Block::new(5, "payload".to_string(), "0".to_string());
    assert_eq!(block.hash, block.calculate_hash());
}

#[test]
fn data_block_mine_zero_difficulty_leaves_block_untouched() {
    let block = Block::new(3, "untouched".to_string(), "0".to_string());
    let mut mined = block.clone();
    mined.mine(0);
    assert_eq!(mined.nonce, block.nonce);
    assert_eq!(mined.hash, block.hash);
}

#[test]
fn mine_returns_the_first_satisfying_nonce() {
    let mut block = Block::new(4, "first nonce".to_string(), "0".to_string());
    block.mine(1);
    assert!(block.hash.starts_with("0"));
    for n in 0..block.nonce {
        let mut earlier = block.clone();
        earlier.nonce = n;
        assert!(!earlier.calculate_hash().starts_with("0"));
    }
}

#[test]
fn data_block_new_mined_meets_difficulty() {
    let block = Block::new_mined(1, "mined payload".to_string(), "0".to_string(), 1);
    assert!(block.hash.starts_with("0"));
    assert_eq!(block.hash, block.calculate_hash());
}
