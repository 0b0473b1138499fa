use vstd::prelude::*;

use crate::block::{check_difficulty, hash_eq, is_zero_hash, meets_difficulty, zero_hash, Block, Digest};
use crate::digests::{append_digests, contains_digest, splice_digests};
use crate::transaction::Transaction;

verus! {

broadcast use vstd::seq_lib::group_seq_properties;

/// Why a candidate block was refused.
#[derive(Clone, Copy, Debug, PartialEq, Eq, Structural)]
pub enum BlockValidationErr {
    /// The hash misses the difficulty target, or the link to the previous block is wrong.
    InvalidHash,
    /// An input is not unspent, or was already spent earlier in the same block.
    InvalidInput,
    /// The block's index is not the next free position.
    MismatchedIndex,
    /// Reserved: a wrong link is reported as `InvalidHash`.
    MismatchedPreviousHash,
    /// The timestamp does not lie after the previous block's.
    AchronologicalTimestamp,
    /// The first transaction is no coinbase, or it pays out less than the fees.
    InvalidCoinbaseTransaction,
    /// A genesis block whose previous hash is not the zero sentinel.
    InvalidGenesisBlockFormat,
    /// A transaction creates more value than it spends.
    InsufficientInputValue,
}

/// The abstract state of a ledger.
pub struct LedgerView {
    pub blocks: Seq<Block>,
    pub unspent: Set<Digest>,
    pub difficulty: u128,
}

/// The first rule among index, proof of work, time and link that `b` breaks
/// as the next block of `v`, in the order in which they are checked.
pub open spec fn header_error(v: LedgerView, b: Block) -> Option<BlockValidationErr> {
    let n = v.blocks.len();
    if b.index as int != n {
        Some(BlockValidationErr::MismatchedIndex)
    } else if !meets_difficulty(b.hash@, v.difficulty) {
        Some(BlockValidationErr::InvalidHash)
    } else if n > 0 {
        if b.timestamp <= v.blocks[n - 1].timestamp {
            Some(BlockValidationErr::AchronologicalTimestamp)
        } else if b.prev_block_hash != v.blocks[n - 1].hash {
            Some(BlockValidationErr::InvalidHash)
        } else {
            None
        }
    } else if b.prev_block_hash@ != zero_hash() {
        Some(BlockValidationErr::InvalidGenesisBlockFormat)
    } else {
        None
    }
}

/// Runs through the non-coinbase transactions `txs[1..end)` against the set
/// `unspent`: the outputs they spend and create, or the first rule broken.
pub open spec fn scan_spends(unspent: Set<Digest>, txs: Seq<Transaction>, end: int) -> Result<
    (Set<Digest>, Set<Digest>),
    BlockValidationErr,
>
    decreases end,
{
    if end <= 1 {
        Ok((Set::empty(), Set::empty()))
    } else {
        match scan_spends(unspent, txs, end - 1) {
            Err(e) => Err(e),
            Ok((spent, created)) => {
                let t = txs[end - 1];
                if !t.input_set().subset_of(unspent) || !t.input_set().disjoint(spent) {
                    Err(BlockValidationErr::InvalidInput)
                } else if t.output_value > t.input_value {
                    Err(BlockValidationErr::InsufficientInputValue)
                } else {
                    Ok((spent.union(t.input_set()), created.union(t.output_set())))
                }
            },
        }
    }
}

/// The fees that the transactions `txs[1..end)` leave.
pub open spec fn fees(txs: Seq<Transaction>, end: int) -> int
    decreases end,
{
    if end <= 1 {
        0
    } else {
        fees(txs, end - 1) + txs[end - 1].input_value - txs[end - 1].output_value
    }
}

/// What the transactions of a block spend and create, given the unspent set
/// before it, or the first rule they break.
pub open spec fn block_effect(unspent: Set<Digest>, txs: Seq<Transaction>) -> Result<
    (Set<Digest>, Set<Digest>),
    BlockValidationErr,
> {
    if txs.len() == 0 {
        Ok((Set::empty(), Set::empty()))
    } else if !txs[0].spec_is_coinbase() {
        Err(BlockValidationErr::InvalidCoinbaseTransaction)
    } else {
        match scan_spends(unspent, txs, txs.len() as int) {
            Err(e) => Err(e),
            Ok((spent, created)) => {
                if (txs[0].output_value as int) < fees(txs, txs.len() as int) {
                    Err(BlockValidationErr::InvalidCoinbaseTransaction)
                } else {
                    Ok((spent, created.union(txs[0].output_set())))
                }
            },
        }
    }
}

/// The verdict on appending `b` to the ledger `v`: the new unspent set, or
/// the first rule that `b` breaks.
pub open spec fn append_outcome(v: LedgerView, b: Block) -> Result<Set<Digest>, BlockValidationErr> {
    match header_error(v, b) {
        Some(e) => Err(e),
        None => match block_effect(v.unspent, b.transactions@) {
            Err(e) => Err(e),
            Ok((spent, created)) => Ok(v.unspent.difference(spent).union(created)),
        },
    }
}

/// The unspent outputs that the blocks of a chain leave, in order.
pub open spec fn chain_unspent(blocks: Seq<Block>) -> Set<Digest>
    decreases blocks.len(),
{
    if blocks.len() == 0 {
        Set::empty()
    } else {
        let before = chain_unspent(blocks.drop_last());
        match block_effect(before, blocks.last().transactions@) {
            Ok((spent, created)) => before.difference(spent).union(created),
            Err(_) => before,
        }
    }
}

/// The ledger that `blocks` form under `difficulty`.
pub open spec fn chain_view(blocks: Seq<Block>, difficulty: u128) -> LedgerView {
    LedgerView { blocks, unspent: chain_unspent(blocks), difficulty }
}

/// Each block of the chain was accepted as the next block of those before it.
pub open spec fn valid_chain(blocks: Seq<Block>, difficulty: u128) -> bool
    decreases blocks.len(),
{
    blocks.len() == 0 || (valid_chain(blocks.drop_last(), difficulty) && append_outcome(
        chain_view(blocks.drop_last(), difficulty),
        blocks.last(),
    ) is Ok)
}

/// Once the scan breaks a rule, scanning further reports that same rule.
pub proof fn lemma_scan_err_persists(unspent: Set<Digest>, txs: Seq<Transaction>, a: int, b: int)
    requires
        a <= b,
        scan_spends(unspent, txs, a) is Err,
    ensures
        scan_spends(unspent, txs, b) == scan_spends(unspent, txs, a),
    decreases b - a,
{
    if a < b {
        lemma_scan_err_persists(unspent, txs, a, b - 1);
    }
}

/// Checks the transactions of a block against the unspent outputs `unspent`
/// and gathers, without touching `unspent`, the outputs they spend and create.
#[verifier::loop_isolation(false)]
pub fn stage_transactions(unspent: &Vec<Digest>, txs: &Vec<Transaction>) -> (r: Result<
    (Vec<Digest>, Vec<Digest>),
    BlockValidationErr,
>)
    ensures
        match (r, block_effect(unspent@.to_set(), txs@)) {
            (Ok((spent, created)), Ok((s, c))) => spent@.to_set() == s && created@.to_set() == c,
            (Err(e), Err(f)) => e == f,
            _ => false,
        },
{
    if txs.len() == 0 {
        let spent: Vec<Digest> = Vec::new();
        let created: Vec<Digest> = Vec::new();
        assert(spent@.to_set() =~= Set::<Digest>::empty());
        assert(created@.to_set() =~= Set::<Digest>::empty());
        return Ok((spent, created));
    }
    let coinbase = &txs[0];
    if !coinbase.is_coinbase() {
        return Err(BlockValidationErr::InvalidCoinbaseTransaction);
    }
    let mut spent: Vec<Digest> = Vec::new();
    let mut created: Vec<Digest> = Vec::new();
    let mut total_fee: u128 = 0;
    let mut j: usize = 1;
    assert(spent@.to_set() =~= Set::<Digest>::empty());
    assert(created@.to_set() =~= Set::<Digest>::empty());
    while j < txs.len()
        invariant
            1 <= j <= txs@.len(),
            scan_spends(unspent@.to_set(), txs@, j as int) == Ok::<_, BlockValidationErr>(
                (spent@.to_set(), created@.to_set()),
            ),
            total_fee == fees(txs@, j as int),
            total_fee <= (j - 1) * 0xFFFF_FFFF_FFFF_FFFFu128,
        decreases txs@.len() - j,
    {
        let t = &txs[j];
        let mut k: usize = 0;
        while k < t.inputs.len()
            invariant
                k <= t.inputs@.len(),
                forall|m: int|
                    0 <= m < k ==> unspent@.to_set().contains(#[trigger] t.inputs@[m]) && !spent@.to_set().contains(
                        t.inputs@[m],
                    ),
            decreases t.inputs@.len() - k,
        {
            let h = t.inputs[k];
            let fresh = contains_digest(unspent, &h) && !contains_digest(&spent, &h);
            assert(t.inputs@[k as int] == h);
            assert(t.input_set().contains(h));
            assert(unspent@.to_set().contains(h) == unspent@.contains(h));
            assert(spent@.to_set().contains(h) == spent@.contains(h));
            if !fresh {
                proof {
                    lemma_scan_err_persists(unspent@.to_set(), txs@, j + 1, txs@.len() as int);
                }
                return Err(BlockValidationErr::InvalidInput);
            }
            k = k + 1;
        }
        assert forall|x: Digest| t.input_set().contains(x) implies unspent@.to_set().contains(x) && !spent@.to_set().contains(
            x,
        ) by {
            let m = choose|m: int| 0 <= m < t.inputs@.len() && t.inputs@[m] == x;
            assert(t.inputs@[m] == x);
        }
        assert(t.input_set().subset_of(unspent@.to_set()));
        assert(t.input_set().disjoint(spent@.to_set()));
        if t.output_value > t.input_value {
            proof {
                lemma_scan_err_persists(unspent@.to_set(), txs@, j + 1, txs@.len() as int);
            }
            return Err(BlockValidationErr::InsufficientInputValue);
        }
        proof {
            let jj = j as int;
            assert(j * 0xFFFF_FFFF_FFFF_FFFFu128 <= 0xFFFF_FFFF_FFFF_FFFF * 0xFFFF_FFFF_FFFF_FFFFu128)
                by (nonlinear_arith)
                requires
                    j <= 0xFFFF_FFFF_FFFF_FFFFu128,
            ;
            assert((jj - 1) * 0xFFFF_FFFF_FFFF_FFFF + 0xFFFF_FFFF_FFFF_FFFF == jj
                * 0xFFFF_FFFF_FFFF_FFFF) by (nonlinear_arith);
        }
        total_fee = total_fee + (t.input_value - t.output_value) as u128;
        append_digests(&mut spent, &t.inputs);
        append_digests(&mut created, &t.outputs);
        j = j + 1;
    }
    if (coinbase.output_value as u128) < total_fee {
        return Err(BlockValidationErr::InvalidCoinbaseTransaction);
    }
    append_digests(&mut created, &coinbase.outputs);
    Ok((spent, created))
}

/// A chain of accepted blocks and the outputs that are left to spend.
pub struct Blockchain {
    blocks: Vec<Block>,
    unspent_outputs: Vec<Digest>,
    difficulty: u128,
}

impl View for Blockchain {
    type V = LedgerView;

    closed spec fn view(&self) -> LedgerView {
        LedgerView {
            blocks: self.blocks@,
            unspent: self.unspent_outputs@.to_set(),
            difficulty: self.difficulty,
        }
    }
}

impl Blockchain {
    /// The blocks form a valid chain and the unspent set is exactly what
    /// they leave.
    pub closed spec fn wf(&self) -> bool {
        &&& self.unspent_outputs@.no_duplicates()
        &&& valid_chain(self.blocks@, self.difficulty)
        &&& self@ == chain_view(self.blocks@, self.difficulty)
    }

    /// What a well-formed ledger is, stated over its view.
    pub proof fn lemma_wf(&self)
        requires
            self.wf(),
        ensures
            valid_chain(self@.blocks, self@.difficulty),
            self@ == chain_view(self@.blocks, self@.difficulty),
    {
    }

    /// An empty ledger whose blocks must meet `difficulty`.
    pub fn new(difficulty: u128) -> (r: Self)
        ensures
            r.wf(),
            r@.blocks == Seq::<Block>::empty(),
            r@.unspent == Set::<Digest>::empty(),
            r@.difficulty == difficulty,
    {
        let r = Blockchain { blocks: Vec::new(), unspent_outputs: Vec::new(), difficulty };
        assert(r@.unspent =~= Set::<Digest>::empty());
        assert(r@ == chain_view(r.blocks@, r.difficulty));
        r
    }

    /// Validates `block` as the next block of the chain. When it passes, it
    /// is appended and the outputs that it spends and creates are applied to
    /// the unspent set; when it fails, the ledger is left as it was and the
    /// first rule broken is returned.
    pub fn update_with_block(&mut self, block: Block) -> (r: Result<(), BlockValidationErr>)
        requires
            old(self).wf(),
        ensures
            final(self).wf(),
            match append_outcome(old(self)@, block) {
                Err(e) => r == Err::<(), BlockValidationErr>(e) && *final(self) == *old(self),
                Ok(unspent) => r is Ok && final(self)@ == (LedgerView {
                    blocks: old(self)@.blocks.push(block),
                    unspent,
                    difficulty: old(self)@.difficulty,
                }),
            },
    {
        let i = self.blocks.len();
        if block.index as usize != i {
            return Err(BlockValidationErr::MismatchedIndex);
        }
        if !check_difficulty(&block.hash, self.difficulty) {
            return Err(BlockValidationErr::InvalidHash);
        }
        if i != 0 {
            let prev = &self.blocks[i - 1];
            if block.timestamp <= prev.timestamp {
                return Err(BlockValidationErr::AchronologicalTimestamp);
            }
            if !hash_eq(&block.prev_block_hash, &prev.hash) {
                return Err(BlockValidationErr::InvalidHash);
            }
        } else if !is_zero_hash(&block.prev_block_hash) {
            return Err(BlockValidationErr::InvalidGenesisBlockFormat);
        }
        let ghost old_blocks = self.blocks@;
        match stage_transactions(&self.unspent_outputs, &block.transactions) {
            Err(e) => {
                return Err(e);
            },
            Ok((spent, created)) => {
                self.unspent_outputs = splice_digests(&self.unspent_outputs, &spent, &created);
            },
        }
        self.blocks.push(block);
        proof {
            assert(self.blocks@.drop_last() =~= old_blocks);
            assert(self.blocks@.last() == block);
        }
        Ok(())
    }

    /// The accepted blocks, in chain order.
    pub fn blocks(&self) -> (r: &Vec<Block>)
        ensures
            r@ == self@.blocks,
    {
        &self.blocks
    }

    /// Decides whether `h` names an output that can still be spent.
    pub fn is_unspent(&self, h: &Digest) -> (r: bool)
        ensures
            r == self@.unspent.contains(*h),
    {
        contains_digest(&self.unspent_outputs, h)
    }

    /// The unspent output identifiers, each once.
    pub fn unspent_outputs(&self) -> (r: &Vec<Digest>)
        ensures
            self.wf() ==> r@.no_duplicates(),
            r@.to_set() == self@.unspent,
    {
        &self.unspent_outputs
    }

    pub fn difficulty(&self) -> (r: u128)
        ensures
            r == self@.difficulty,
    {
        self.difficulty
    }
}

} // verus!
