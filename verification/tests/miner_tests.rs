use fs_blockchain::blockchain::block::Block;
use fs_blockchain::blockchain::chain::Blockchain;
use fs_blockchain::blockchain::miner::Miner;
use fs_blockchain::blockchain::transaction::Transaction;
use fs_blockchain::consensus::dpos::Delegate;
use fs_blockchain::consensus::dpos_simple::DPoS;
use fs_blockchain::wallet::balance::Ledger;

#[test]
fn genesis_chain_has_one_linked_block() {
    let chain = Blockchain::new();
    assert_eq!(chain.blocks.len(), 1);
    assert_eq!(chain.blocks[0].index, 0);
    assert_eq!(chain.blocks[0].prev_hash, "0".to_string());
    assert!(chain.blocks[0].transactions.is_empty());
    assert_eq!(chain.last_hash(), chain.blocks[0].hash);
}

#[test]
fn produced_blocks_link_to_the_tip() {
    let mut miner = Miner::new();
    let mut dpos = DPoS::new(vec![Delegate::new(1, "Alice")]);
    miner.add_transaction(Transaction::new("a".to_string(), "b".to_string(), 1));
    miner.produce_block(&mut dpos);
    miner.add_transaction(Transaction::new("b".to_string(), "a".to_string(), 1));
    miner.produce_block(&mut dpos);
    let blocks = &miner.blockchain.blocks;
    assert_eq!(blocks.len(), 3);
    for i in 0..blocks.len() {
        assert_eq!(blocks[i].index as usize, i);
        if i > 0 {
            assert_eq!(blocks[i].prev_hash, blocks[i - 1].hash);
        }
    }
}

#[test]
fn end_to_end_dpos_production_updates_ledger() {
    let mut ledger = Ledger::new();
    ledger.set_balance("Alice".to_string(), 100);
    ledger.set_balance("Bob".to_string(), 100);

    let mut dpos = DPoS::new(vec![Delegate::new(1, "Alice"), Delegate::new(2, "Bob")]);
    assert!(dpos.vote(1, 10).is_ok());

    let mut miner = Miner::new();
    miner.add_transaction(Transaction::new("Alice".to_string(), "Bob".to_string(), 10));
    miner.produce_block(&mut dpos);

    let blocks = &miner.blockchain.blocks;
    assert_eq!(blocks.len(), 2);
    assert_eq!(blocks[1].prev_hash, blocks[0].hash);
    assert!(miner.pending_transactions.is_empty());

    let r = Block::apply_block(&mut ledger, &blocks[1]);
    assert!(r.is_ok());
    assert_eq!(ledger.get_balance("Alice"), 90);
    assert_eq!(ledger.get_balance("Bob"), 110);
}

#[test]
fn end_to_end_pow_production_updates_ledger() {
    let mut ledger = Ledger::new();
    ledger.set_balance("Alice".to_string(), 100);
    ledger.set_balance("Bob".to_string(), 100);

    let mut chain = Blockchain::new();
    let txs = vec![Transaction::new("Alice".to_string(), "Bob".to_string(), 10)];
    let block = Block::new_mined(chain.blocks.len() as u32, txs, chain.last_hash(), 2);
    assert!(block.hash.starts_with("00"));
    chain.add_block(block);

    assert_eq!(chain.blocks.len(), 2);
    assert_eq!(chain.blocks[1].prev_hash, chain.blocks[0].hash);

    let r = Block::apply_block(&mut ledger, &chain.blocks[1]);
    assert!(r.is_ok());
    assert_eq!(ledger.get_balance("Alice"), 90);
    assert_eq!(ledger.get_balance("Bob"), 110);
}

#[test]
fn production_without_delegates_aborts_and_keeps_pending_pool() {
    let mut miner = Miner::new();
    let mut dpos = DPoS::new(Vec::new());
    miner.add_transaction(Transaction::new("a".to_string(), "b".to_string(), 3));
    miner.produce_block(&mut dpos);
    assert_eq!(miner.blockchain.blocks.len(), 1);
    assert_eq!(miner.pending_transactions.len(), 1);
    assert_eq!(miner.pending_transactions[0].amount, 3);
}

#[test]
fn block_hash_is_self_consistent() {
    let txs = vec![Transaction::new("s".to_string(), "r".to_string(), 4)];
    let block = Block::new(1, txs, "0".to_string());
    assert_eq!(block.hash, block.calculate_hash());
    assert_eq!(block.hash.len(), 64);
}

#[test]
fn transaction_new_stamps_a_timestamp() {
    let tx = Transaction::new("s".to_string(), "r".to_string(), 0);
    assert_eq!(tx.sender, "s".to_string());
    assert_eq!(tx.recipient, "r".to_string());
    assert_eq!(tx.amount, 0);
    assert!(!tx.timestamp.is_empty());
}
