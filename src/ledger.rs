//! The ledger: the chain of blocks and this node's wallet, kept together under
//! one owner so that every mined block is appended and rewarded as one step.
use vstd::prelude::*;
use crate::encoding::{hex_of, to_hex};
use crate::pow::{
    found_on_some_region, meets, meets_difficulty, no_proof_on_some_region,
    proof_of_deep_encryption, random_bytes,
};

verus! {

/// Coins credited to the wallet for each block mined here.
pub const REWARD: u64 = 50;

/// One unit of the ledger.
#[derive(Debug, Clone, PartialEq, Eq)]
pub struct Block {
    pub index: u64,
    pub timestamp: u64,
    pub hash: String,
    pub prev_hash: String,
    pub nonce: u64,
    pub miner: String,
}

pub struct BlockView {
    pub index: u64,
    pub timestamp: u64,
    pub hash: Seq<char>,
    pub prev_hash: Seq<char>,
    pub nonce: u64,
    pub miner: Seq<char>,
}

impl View for Block {
    type V = BlockView;

    open spec fn view(&self) -> BlockView {
        BlockView {
            index: self.index,
            timestamp: self.timestamp,
            hash: self.hash@,
            prev_hash: self.prev_hash@,
            nonce: self.nonce,
            miner: self.miner@,
        }
    }
}

impl Block {
    /// A copy with the same field values.
    pub fn duplicate(&self) -> (r: Block)
        ensures
            r@ == self@,
    {
        Block {
            index: self.index,
            timestamp: self.timestamp,
            hash: self.hash.clone(),
            prev_hash: self.prev_hash.clone(),
            nonce: self.nonce,
            miner: self.miner.clone(),
        }
    }
}

/// Identity and balance of this node.
#[derive(Debug, Clone, PartialEq, Eq)]
pub struct Wallet {
    pub address: String,
    pub public_key: String,
    pub view_key: String,
    pub balance: u64,
}

pub struct WalletView {
    pub address: Seq<char>,
    pub public_key: Seq<char>,
    pub view_key: Seq<char>,
    pub balance: u64,
}

impl View for Wallet {
    type V = WalletView;

    open spec fn view(&self) -> WalletView {
        WalletView {
            address: self.address@,
            public_key: self.public_key@,
            view_key: self.view_key@,
            balance: self.balance,
        }
    }
}

pub open spec fn chain_view(c: Seq<Block>) -> Seq<BlockView> {
    c.map_values(|b: Block| b@)
}

/// A well-formed chain: not empty, each block's index is its position, and each
/// block after the first names its predecessor's hash.
pub open spec fn linked(c: Seq<BlockView>) -> bool {
    &&& c.len() > 0
    &&& forall|i: int| 0 <= i < c.len() ==> (#[trigger] c[i]).index == i
    &&& forall|i: int| 0 < i < c.len() ==> (#[trigger] c[i]).prev_hash == c[i - 1].hash
}

/// The fixed first block.
pub open spec fn genesis_view() -> BlockView {
    BlockView {
        index: 0,
        timestamp: 0,
        hash: "GENESIS_HASH_00000000000000"@,
        prev_hash: "0"@,
        nonce: 0,
        miner: "SYSTEM"@,
    }
}

/// The views of a stored chain, if any.
pub open spec fn stored_view(stored: Option<Vec<Block>>) -> Option<Seq<BlockView>> {
    match stored {
        Some(c) => Some(chain_view(c@)),
        None => None,
    }
}

/// The chain as loaded from what storage held: that chain when it is
/// well-formed, else a chain of the genesis block alone.
pub open spec fn loaded_chain(stored: Option<Seq<BlockView>>) -> Seq<BlockView> {
    match stored {
        Some(c) => if linked(c) {
            c
        } else {
            seq![genesis_view()]
        },
        None => seq![genesis_view()],
    }
}

/// A chain that holds the genesis block alone.
pub fn genesis_chain() -> (r: Vec<Block>)
    ensures
        chain_view(r@) == seq![genesis_view()],
{
    let b = Block {
        index: 0,
        timestamp: 0,
        hash: String::from_str("GENESIS_HASH_00000000000000"),
        prev_hash: String::from_str("0"),
        nonce: 0,
        miner: String::from_str("SYSTEM"),
    };
    let r = vec![b];
    assert(chain_view(r@) =~= seq![genesis_view()]);
    r
}

/// Whether a chain is well-formed.
pub fn is_linked(chain: &Vec<Block>) -> (r: bool)
    ensures
        r == linked(chain_view(chain@)),
{
    let ghost c = chain_view(chain@);
    if chain.len() == 0 {
        return false;
    }
    let mut i: usize = 0;
    while i < chain.len()
        invariant
            c == chain_view(chain@),
            0 < chain@.len(),
            i <= chain@.len(),
            forall|j: int| 0 <= j < i ==> (#[trigger] c[j]).index == j,
            forall|j: int| 0 < j < i ==> (#[trigger] c[j]).prev_hash == c[j - 1].hash,
        decreases chain@.len() - i,
    {
        if chain[i].index != i as u64 {
            assert(c[i as int].index != i);
            return false;
        }
        if i > 0 && chain[i].prev_hash != chain[i - 1].hash {
            assert(c[i as int].prev_hash != c[i - 1].hash);
            return false;
        }
        i = i + 1;
    }
    true
}

/// Chooses the chain to start from: the stored one when it is well-formed, else
/// a fresh genesis chain.
pub fn load_chain(stored: Option<Vec<Block>>) -> (r: Vec<Block>)
    ensures
        chain_view(r@) == loaded_chain(stored_view(stored)),
{
    match stored {
        Some(c) => if is_linked(&c) {
            c
        } else {
            genesis_chain()
        },
        None => genesis_chain(),
    }
}

/// Prefix of every wallet address.
pub open spec fn address_prefix() -> Seq<char> {
    "CAS"@
}

/// The wallet made from the given key material, with nothing credited yet.
pub open spec fn wallet_of_keys(addr: Seq<u8>, public_key: Seq<u8>, view_key: Seq<u8>) -> WalletView {
    WalletView {
        address: address_prefix() + hex_of(addr),
        public_key: hex_of(public_key),
        view_key: hex_of(view_key),
        balance: 0,
    }
}

/// A wallet as created here: 16 bytes of address material and 32 bytes of each
/// key, hex encoded, and a zero balance.
pub open spec fn is_new_wallet(w: WalletView) -> bool {
    exists|a: Seq<u8>, p: Seq<u8>, v: Seq<u8>|
        #![trigger wallet_of_keys(a, p, v)]
        a.len() == 16 && p.len() == 32 && v.len() == 32 && w == wallet_of_keys(a, p, v)
}

/// Builds a wallet from raw key material.
pub fn wallet_from_keys(addr: &[u8], public_key: &[u8], view_key: &[u8]) -> (r: Wallet)
    ensures
        r@ == wallet_of_keys(addr@, public_key@, view_key@),
{
    let mut address = String::from_str("CAS");
    let a = to_hex(addr);
    address.append(a.as_str());
    Wallet { address, public_key: to_hex(public_key), view_key: to_hex(view_key), balance: 0 }
}

/// Creates a wallet from fresh random key material.
pub fn create_wallet() -> (r: Wallet)
    ensures
        is_new_wallet(r@),
{
    let a = random_bytes(16);
    let p = random_bytes(32);
    let v = random_bytes(32);
    let w = wallet_from_keys(a.as_slice(), p.as_slice(), v.as_slice());
    assert(w@ == wallet_of_keys(a@, p@, v@));
    w
}

/// The stored wallet when there is one, else a newly created one.
pub fn load_wallet(stored: Option<Wallet>) -> (r: Wallet)
    ensures
        match stored {
            Some(w) => r@ == w@,
            None => is_new_wallet(r@),
        },
{
    match stored {
        Some(w) => w,
        None => create_wallet(),
    }
}

/// The chain and the wallet, owned together.
pub struct Ledger {
    chain: Vec<Block>,
    wallet: Wallet,
}

pub struct LedgerView {
    pub chain: Seq<BlockView>,
    pub wallet: WalletView,
}

impl View for Ledger {
    type V = LedgerView;

    closed spec fn view(&self) -> LedgerView {
        LedgerView { chain: chain_view(self.chain@), wallet: self.wallet@ }
    }
}

/// Why a block could not be mined.
#[derive(Debug, Clone, Copy, PartialEq, Eq, Structural)]
pub enum MineError {
    /// The tip's index is the largest `u64`.
    IndexOverflow,
    /// The reward would take the balance past the largest `u64`.
    BalanceOverflow,
    /// No 64-bit nonce met the difficulty.
    NoProof,
    /// The proof was searched against a hash that is not the tip's.
    StaleTip,
}

/// Whether one more block can be appended and rewarded.
pub open spec fn can_mine(l: LedgerView) -> bool {
    l.chain.last().index < u64::MAX && l.wallet.balance <= u64::MAX - REWARD
}

/// The error for a ledger on which `can_mine` fails.
pub open spec fn overflow_error(l: LedgerView) -> MineError {
    if l.chain.last().index == u64::MAX {
        MineError::IndexOverflow
    } else {
        MineError::BalanceOverflow
    }
}

/// The error for a proof searched against `prev_hash` that cannot be appended.
pub open spec fn append_error(l: LedgerView, prev_hash: Seq<char>) -> MineError {
    if prev_hash != l.chain.last().hash {
        MineError::StaleTip
    } else {
        overflow_error(l)
    }
}

/// The block that extends the tip of `l` with a proof found at `timestamp`.
pub open spec fn next_block(l: LedgerView, nonce: u64, hash: Seq<char>, timestamp: u64) -> BlockView {
    BlockView {
        index: (l.chain.last().index + 1) as u64,
        timestamp,
        hash,
        prev_hash: l.chain.last().hash,
        nonce,
        miner: l.wallet.address,
    }
}

/// One mining step from `pre` to `post` that appended `b`: `b` extends the tip
/// and names this wallet, and the wallet gained the reward and nothing else.
pub open spec fn mined_step(pre: LedgerView, post: LedgerView, b: BlockView) -> bool {
    &&& b.index == pre.chain.last().index + 1
    &&& b.prev_hash == pre.chain.last().hash
    &&& b.miner == pre.wallet.address
    &&& post.chain == pre.chain.push(b)
    &&& post.wallet == WalletView { balance: (pre.wallet.balance + REWARD) as u64, ..pre.wallet }
    &&& pre.wallet.balance + REWARD <= u64::MAX
}

/// Why an announced block does not extend this chain.
#[derive(Debug, Clone, Copy, PartialEq, Eq, Structural)]
pub enum Rejection {
    /// Its index is not the tip's index plus one.
    WrongIndex,
    /// It does not name the tip's hash.
    WrongPrevHash,
    /// Its hash does not meet the difficulty.
    InsufficientWork,
}

/// The verdict on an announced block `b`, checked in the order index, previous
/// hash, difficulty.
pub open spec fn verdict(l: LedgerView, b: BlockView, difficulty: nat) -> Result<(), Rejection> {
    if b.index != l.chain.last().index + 1 {
        Err(Rejection::WrongIndex)
    } else if b.prev_hash != l.chain.last().hash {
        Err(Rejection::WrongPrevHash)
    } else if !meets(b.hash, difficulty) {
        Err(Rejection::InsufficientWork)
    } else {
        Ok(())
    }
}

impl Ledger {
    /// The chain is always linked.
    #[verifier::type_invariant]
    spec fn inv(&self) -> bool {
        linked(chain_view(self.chain@))
    }

    /// The ledger to start from: the stored chain when it is well-formed (else
    /// the genesis chain), and the stored wallet (else a new one).
    pub fn load_or_init(stored_chain: Option<Vec<Block>>, stored_wallet: Option<Wallet>) -> (r: Ledger)
        ensures
            linked(r@.chain),
            r@.chain == loaded_chain(stored_view(stored_chain)),
            match stored_wallet {
                Some(w) => r@.wallet == w@,
                None => is_new_wallet(r@.wallet),
            },
    {
        let ghost sc = stored_view(stored_chain);
        let chain = load_chain(stored_chain);
        let wallet = load_wallet(stored_wallet);
        proof {
            lemma_loaded_chain_linked(sc);
        }
        Ledger { chain, wallet }
    }

    /// The blocks, genesis first.
    pub fn chain(&self) -> (r: &Vec<Block>)
        ensures
            chain_view(r@) == self@.chain,
            linked(self@.chain),
    {
        proof {
            use_type_invariant(self);
        }
        &self.chain
    }

    /// This node's wallet.
    pub fn wallet(&self) -> (r: &Wallet)
        ensures
            r@ == self@.wallet,
    {
        &self.wallet
    }

    /// The last block.
    pub fn tip(&self) -> (r: &Block)
        ensures
            r@ == self@.chain.last(),
    {
        proof {
            use_type_invariant(self);
        }
        &self.chain[self.chain.len() - 1]
    }

    /// Appends the block that a proof `(nonce, hash)` searched against
    /// `prev_hash` makes, and credits the reward to the wallet; returns that
    /// block. Fails, changing nothing, when `prev_hash` is not the tip's hash
    /// (`StaleTip`, checked first) or when the index or the balance would
    /// overflow.
    pub fn append_mined(&mut self, prev_hash: &str, nonce: u64, hash: String, timestamp: u64) -> (r: Result<
        Block,
        MineError,
    >)
        ensures
            linked(old(self)@.chain),
            linked(final(self)@.chain),
            match r {
                Ok(b) => {
                    &&& prev_hash@ == old(self)@.chain.last().hash
                    &&& can_mine(old(self)@)
                    &&& b@ == next_block(old(self)@, nonce, hash@, timestamp)
                    &&& mined_step(old(self)@, final(self)@, b@)
                },
                Err(e) => {
                    &&& !(prev_hash@ == old(self)@.chain.last().hash && can_mine(old(self)@))
                    &&& e == append_error(old(self)@, prev_hash@)
                    &&& final(self)@ == old(self)@
                },
            },
    {
        proof {
            use_type_invariant(&*self);
        }
        let last = self.chain.len() - 1;
        let searched = String::from_str(prev_hash);
        if searched != self.chain[last].hash {
            return Err(MineError::StaleTip);
        }
        let tip_index = self.chain[last].index;
        if tip_index == u64::MAX {
            return Err(MineError::IndexOverflow);
        }
        if self.wallet.balance > u64::MAX - REWARD {
            return Err(MineError::BalanceOverflow);
        }
        let block = Block {
            index: tip_index + 1,
            timestamp,
            hash,
            prev_hash: self.chain[last].hash.clone(),
            nonce,
            miner: self.wallet.address.clone(),
        };
        let out = block.duplicate();
        let ghost pre = self@;
        let mut chain = genesis_chain();
        std::mem::swap(&mut chain, &mut self.chain);
        chain.push(block);
        proof {
            assert(chain_view(chain@) =~= pre.chain.push(out@));
            lemma_push_linked(pre.chain, out@);
        }
        self.chain = chain;
        self.wallet.balance = self.wallet.balance + REWARD;
        Ok(out)
    }

    /// One mining iteration: searches a proof against the tip on a fresh random
    /// region, then appends the block and credits the reward as `append_mined`
    /// does. Overflow is reported before any search; `NoProof` only when no
    /// 64-bit nonce met the difficulty on the region drawn.
    pub fn mine_block(&mut self, difficulty: usize, timestamp: u64) -> (r: Result<Block, MineError>)
        ensures
            linked(old(self)@.chain),
            linked(final(self)@.chain),
            match r {
                Ok(b) => {
                    &&& can_mine(old(self)@)
                    &&& mined_step(old(self)@, final(self)@, b@)
                    &&& b.timestamp == timestamp
                    &&& found_on_some_region(b@.prev_hash, difficulty as nat, b.nonce as nat, b@.hash)
                },
                Err(MineError::NoProof) => {
                    &&& can_mine(old(self)@)
                    &&& no_proof_on_some_region(old(self)@.chain.last().hash, difficulty as nat)
                    &&& final(self)@ == old(self)@
                },
                Err(e) => {
                    &&& !can_mine(old(self)@)
                    &&& e == overflow_error(old(self)@)
                    &&& final(self)@ == old(self)@
                },
            },
    {
        proof {
            use_type_invariant(&*self);
        }
        let last = self.chain.len() - 1;
        if self.chain[last].index == u64::MAX {
            return Err(MineError::IndexOverflow);
        }
        if self.wallet.balance > u64::MAX - REWARD {
            return Err(MineError::BalanceOverflow);
        }
        let tip_hash = self.chain[last].hash.clone();
        match proof_of_deep_encryption(tip_hash.as_str(), difficulty) {
            Some((nonce, hash)) => self.append_mined(tip_hash.as_str(), nonce, hash, timestamp),
            None => Err(MineError::NoProof),
        }
    }

    /// Checks a block announced by a peer against the tip: it must come next,
    /// name the tip's hash and meet the difficulty. The scratch region behind the
    /// hash is the sender's and random, so the digest itself cannot be redone
    /// here. The ledger is not changed: whether to adopt such a block is left to
    /// a fork-choice rule this node does not have.
    pub fn vet_block(&self, b: &Block, difficulty: usize) -> (r: Result<(), Rejection>)
        ensures
            r == verdict(self@, b@, difficulty as nat),
    {
        let tip = self.tip();
        if tip.index == u64::MAX || b.index != tip.index + 1 {
            return Err(Rejection::WrongIndex);
        }
        if b.prev_hash != tip.hash {
            return Err(Rejection::WrongPrevHash);
        }
        if !meets_difficulty(b.hash.as_str(), difficulty) {
            return Err(Rejection::InsufficientWork);
        }
        Ok(())
    }
}

/// A chain that `loaded_chain` gives is well-formed.
pub proof fn lemma_loaded_chain_linked(stored: Option<Seq<BlockView>>)
    ensures
        linked(loaded_chain(stored)),
{
}

/// Appending a block that extends the tip keeps a chain well-formed.
pub proof fn lemma_push_linked(c: Seq<BlockView>, b: BlockView)
    requires
        linked(c),
        b.index == c.last().index + 1,
        b.prev_hash == c.last().hash,
    ensures
        linked(c.push(b)),
{
    let d = c.push(b);
    assert forall|i: int| 0 <= i < d.len() implies (#[trigger] d[i]).index == i by {
        if i < c.len() {
            assert(d[i] == c[i]);
        }
    }
    assert forall|i: int| 0 < i < d.len() implies (#[trigger] d[i]).prev_hash == d[i - 1].hash by {
        if i < c.len() {
            assert(d[i] == c[i]);
        }
    }
}

/// Loading is idempotent: a well-formed stored chain loads as itself, so storing
/// what a load gave and loading it again gives the same chain.
pub proof fn lemma_load_idempotent(c: Seq<BlockView>)
    requires
        linked(c),
    ensures
        loaded_chain(Some(c)) == c,
        loaded_chain(Some(loaded_chain(Some(c)))) == loaded_chain(Some(c)),
{
}

/// Mining steps from a well-formed chain: after any number of them, block `i`
/// has index `i` and, past genesis, names the hash of block `i - 1`; the chain
/// is the first one followed by the mined blocks in order.
pub proof fn lemma_mined_chains_linked(states: Seq<LedgerView>, blocks: Seq<BlockView>)
    requires
        states.len() == blocks.len() + 1,
        linked(states[0].chain),
        forall|i: int|
            #![trigger blocks[i]]
            0 <= i < blocks.len() ==> mined_step(states[i], states[i + 1], blocks[i]),
    ensures
        forall|i: int| 0 <= i < states.len() ==> linked(#[trigger] states[i].chain),
        states.last().chain == states[0].chain + blocks,
    decreases blocks.len(),
{
    if blocks.len() > 0 {
        let n = blocks.len() - 1;
        let s0 = states.drop_last();
        let b0 = blocks.drop_last();
        assert forall|i: int| #![trigger b0[i]] 0 <= i < b0.len() implies mined_step(
            s0[i],
            s0[i + 1],
            b0[i],
        ) by {
            assert(blocks[i] == b0[i]);
        }
        lemma_mined_chains_linked(s0, b0);
        assert(mined_step(states[n], states[n + 1], blocks[n]));
        assert(s0.last() == states[n]);
        lemma_push_linked(states[n].chain, blocks[n]);
        assert forall|i: int| 0 <= i < states.len() implies linked(#[trigger] states[i].chain) by {
            if i < s0.len() {
                assert(s0[i] == states[i]);
            }
        }
        assert(states.last().chain =~= states[0].chain + blocks);
    } else {
        assert(states[0].chain + blocks =~= states[0].chain);
    }
}

/// The balance law: after `n` mining steps the balance is the first balance
/// plus `n` rewards, and the wallet's other fields are unchanged.
pub proof fn lemma_balance_law(states: Seq<LedgerView>, blocks: Seq<BlockView>)
    requires
        states.len() == blocks.len() + 1,
        forall|i: int|
            #![trigger blocks[i]]
            0 <= i < blocks.len() ==> mined_step(states[i], states[i + 1], blocks[i]),
    ensures
        states.last().wallet.balance == states[0].wallet.balance + blocks.len() * REWARD,
        states.last().wallet == (WalletView { balance: states.last().wallet.balance, ..states[0].wallet }),
    decreases blocks.len(),
{
    if blocks.len() > 0 {
        let n = blocks.len() - 1;
        let s0 = states.drop_last();
        let b0 = blocks.drop_last();
        assert forall|i: int| #![trigger b0[i]] 0 <= i < b0.len() implies mined_step(
            s0[i],
            s0[i + 1],
            b0[i],
        ) by {
            assert(blocks[i] == b0[i]);
        }
        lemma_balance_law(s0, b0);
        assert(mined_step(states[n], states[n + 1], blocks[n]));
        assert(s0.last() == states[n]);
        assert(n * REWARD + REWARD == blocks.len() * REWARD) by (nonlinear_arith)
            requires n + 1 == blocks.len();
    }
}

} // verus!
