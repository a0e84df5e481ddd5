use aegis_node::ledger::{
    create_wallet, genesis_chain, is_linked, load_chain, load_wallet, wallet_from_keys, Block,
    Ledger, MineError, Rejection, Wallet, REWARD,
};

fn block(index: u64, hash: &str, prev_hash: &str) -> Block {
    Block {
        index,
        timestamp: 1000 + index,
        hash: hash.to_string(),
        prev_hash: prev_hash.to_string(),
        nonce: index * 3,
        miner: "CASminer".to_string(),
    }
}

fn stored_wallet(balance: u64) -> Wallet {
    Wallet {
        address: "CAS00".to_string(),
        public_key: "aa".to_string(),
        view_key: "bb".to_string(),
        balance,
    }
}

fn valid_chain() -> Vec<Block> {
    let mut c = genesis_chain();
    c.push(block(1, "00aa", "GENESIS_HASH_00000000000000"));
    c.push(block(2, "00bb", "00aa"));
    c
}

#[test]
fn genesis_is_the_fixed_sentinel() {
    let c = genesis_chain();
    assert_eq!(c.len(), 1);
    assert_eq!(c[0].index, 0);
    assert_eq!(c[0].timestamp, 0);
    assert_eq!(c[0].hash, "GENESIS_HASH_00000000000000");
    assert_eq!(c[0].prev_hash, "0");
    assert_eq!(c[0].nonce, 0);
    assert_eq!(c[0].miner, "SYSTEM");
}

#[test]
fn linked_chain_checks() {
    assert!(is_linked(&valid_chain()));
    assert!(!is_linked(&Vec::new()));
    let mut bad_index = valid_chain();
    bad_index[2].index = 5;
    assert!(!is_linked(&bad_index));
    let mut bad_prev = valid_chain();
    bad_prev[2].prev_hash = "zz".to_string();
    assert!(!is_linked(&bad_prev));
}

#[test]
fn load_chain_keeps_a_valid_chain() {
    let c = load_chain(Some(valid_chain()));
    assert_eq!(c, valid_chain());
}

#[test]
fn load_chain_falls_back_to_genesis() {
    assert_eq!(load_chain(None), genesis_chain());
    assert_eq!(load_chain(Some(Vec::new())), genesis_chain());
    let mut broken = valid_chain();
    broken[1].prev_hash = "elsewhere".to_string();
    assert_eq!(load_chain(Some(broken)), genesis_chain());
}

#[test]
fn loading_twice_gives_the_same_state() {
    let once = load_chain(Some(valid_chain()));
    let twice = load_chain(Some(once.clone()));
    assert_eq!(once, twice);
    let a = Ledger::load_or_init(Some(valid_chain()), Some(stored_wallet(150)));
    let b = Ledger::load_or_init(Some(valid_chain()), Some(stored_wallet(150)));
    assert_eq!(a.chain(), b.chain());
    assert_eq!(a.wallet(), b.wallet());
}

#[test]
fn wallet_from_keys_hex_encodes() {
    let w = wallet_from_keys(&[0x01, 0xab, 0xff], &[0x00, 0x10], &[0x9c]);
    assert_eq!(w.address, "CAS01abff");
    assert_eq!(w.public_key, "0010");
    assert_eq!(w.view_key, "9c");
    assert_eq!(w.balance, 0);
}

#[test]
fn created_wallet_shape() {
    let w = create_wallet();
    assert!(w.address.starts_with("CAS"));
    assert_eq!(w.address.len(), 3 + 32);
    assert_eq!(w.public_key.len(), 64);
    assert_eq!(w.view_key.len(), 64);
    assert!(w.public_key.chars().all(|c| c.is_ascii_hexdigit() && !c.is_ascii_uppercase()));
    assert_eq!(w.balance, 0);
}

#[test]
fn load_wallet_keeps_the_stored_one() {
    assert_eq!(load_wallet(Some(stored_wallet(7))), stored_wallet(7));
    assert_eq!(load_wallet(None).balance, 0);
}

#[test]
fn append_mined_extends_the_tip_and_rewards() {
    let mut l = Ledger::load_or_init(Some(valid_chain()), Some(stored_wallet(100)));
    let b = l.append_mined("00bb", 42, "00cc".to_string(), 77).unwrap();
    assert_eq!(b.index, 3);
    assert_eq!(b.prev_hash, "00bb");
    assert_eq!(b.hash, "00cc");
    assert_eq!(b.nonce, 42);
    assert_eq!(b.timestamp, 77);
    assert_eq!(b.miner, "CAS00");
    assert_eq!(l.chain().len(), 4);
    assert_eq!(l.tip(), &b);
    assert_eq!(l.wallet().balance, 100 + REWARD);
    assert!(is_linked(l.chain()));
}

#[test]
fn append_mined_refuses_balance_overflow() {
    let mut l = Ledger::load_or_init(None, Some(stored_wallet(u64::MAX - 10)));
    assert_eq!(l.append_mined("GENESIS_HASH_00000000000000", 1, "00".to_string(), 5), Err(MineError::BalanceOverflow));
    assert_eq!(l.chain().len(), 1);
    assert_eq!(l.wallet().balance, u64::MAX - 10);
    assert_eq!(l.mine_block(1, 5), Err(MineError::BalanceOverflow));
    assert_eq!(l.chain().len(), 1);
}

#[test]
fn append_mined_refuses_a_stale_tip() {
    let mut l = Ledger::load_or_init(Some(valid_chain()), Some(stored_wallet(100)));
    assert_eq!(l.append_mined("00aa", 1, "00cc".to_string(), 5), Err(MineError::StaleTip));
    assert_eq!(l.chain().len(), 3);
    assert_eq!(l.wallet().balance, 100);
}

#[test]
fn fresh_node_first_mining_iteration() {
    let mut l = Ledger::load_or_init(None, None);
    assert_eq!(l.chain().len(), 1);
    assert_eq!(l.chain()[0].index, 0);
    assert_eq!(l.chain()[0].prev_hash, "0");
    assert_eq!(l.wallet().balance, 0);
    let b = l.mine_block(2, 1700000000).unwrap();
    assert_eq!(l.chain().len(), 2);
    assert_eq!(l.wallet().balance, 50);
    assert_eq!(b.index, 1);
    assert_eq!(b.prev_hash, "GENESIS_HASH_00000000000000");
    assert!(b.hash.starts_with("00"));
    assert_eq!(b.hash.len(), 64);
    assert_eq!(b.miner, l.wallet().address);
}

#[test]
fn balance_after_several_iterations() {
    let mut l = Ledger::load_or_init(None, Some(stored_wallet(30)));
    for _ in 0..3 {
        l.mine_block(1, 9).unwrap();
    }
    assert_eq!(l.wallet().balance, 30 + 3 * REWARD);
    assert_eq!(l.wallet().address, "CAS00");
    assert_eq!(l.wallet().public_key, "aa");
    let c = l.chain();
    assert_eq!(c.len(), 4);
    for i in 0..c.len() {
        assert_eq!(c[i].index, i as u64);
        if i > 0 {
            assert_eq!(c[i].prev_hash, c[i - 1].hash);
            assert!(c[i].hash.starts_with("0"));
        }
    }
}

#[test]
fn vet_block_verdicts() {
    let l = Ledger::load_or_init(Some(valid_chain()), Some(stored_wallet(0)));
    assert_eq!(l.vet_block(&block(3, "00dd", "00bb"), 2), Ok(()));
    assert_eq!(l.vet_block(&block(2, "00dd", "00bb"), 2), Err(Rejection::WrongIndex));
    assert_eq!(l.vet_block(&block(4, "00dd", "00bb"), 2), Err(Rejection::WrongIndex));
    assert_eq!(l.vet_block(&block(3, "00dd", "00aa"), 2), Err(Rejection::WrongPrevHash));
    assert_eq!(l.vet_block(&block(3, "0add", "00bb"), 2), Err(Rejection::InsufficientWork));
    assert_eq!(l.chain().len(), 3);
}

#[test]
fn block_duplicate_keeps_fields() {
    let b = block(9, "h", "p");
    assert_eq!(b.duplicate(), b);
}
