use vstd::prelude::*;

use crate::block::{meets_difficulty, zero_hash, Block, Digest};
use crate::blockchain::{
    append_outcome, block_effect, fees, header_error, lemma_scan_err_persists, scan_spends,
    valid_chain, chain_view, BlockValidationErr, LedgerView,
};
use crate::transaction::Transaction;

verus! {

/// Some non-coinbase transaction of `b` spends the output `x`.
pub open spec fn spends(b: Block, x: Digest) -> bool {
    exists|i: int| 1 <= i < b.transactions@.len() && #[trigger] b.transactions@[i].input_set().contains(x)
}

/// Some transaction of `b`, the coinbase included, creates the output `x`.
pub open spec fn creates(b: Block, x: Digest) -> bool {
    exists|i: int| 0 <= i < b.transactions@.len() && #[trigger] b.transactions@[i].output_set().contains(x)
}

/// The ledger that accepting `b` into `v` leads to.
pub open spec fn after(v: LedgerView, b: Block) -> LedgerView {
    LedgerView {
        blocks: v.blocks.push(b),
        unspent: append_outcome(v, b)->Ok_0,
        difficulty: v.difficulty,
    }
}

/// A scan that succeeds up to `end` spends exactly the inputs and creates
/// exactly the outputs of `txs[1..end)`, none of which creates more value
/// than it spends; and it succeeds on every shorter prefix.
pub proof fn lemma_scan_ok(unspent: Set<Digest>, txs: Seq<Transaction>, end: int)
    requires
        scan_spends(unspent, txs, end) is Ok,
    ensures
        forall|x: Digest|
            #![auto]
            scan_spends(unspent, txs, end)->Ok_0.0.contains(x) <==> exists|i: int|
                1 <= i < end && #[trigger] txs[i].input_set().contains(x),
        forall|x: Digest|
            #![auto]
            scan_spends(unspent, txs, end)->Ok_0.1.contains(x) <==> exists|i: int|
                1 <= i < end && #[trigger] txs[i].output_set().contains(x),
        forall|i: int| 1 <= i < end ==> #[trigger] txs[i].output_value <= txs[i].input_value,
        forall|a: int| a <= end ==> #[trigger] scan_spends(unspent, txs, a) is Ok,
    decreases end,
{
    if end > 1 {
        lemma_scan_ok(unspent, txs, end - 1);
        assert forall|a: int| a <= end implies #[trigger] scan_spends(unspent, txs, a) is Ok by {
            if a < end {
                assert(scan_spends(unspent, txs, a) is Ok);
            }
        }
    } else {
        assert forall|a: int| a <= end implies #[trigger] scan_spends(unspent, txs, a) is Ok by {
        }
    }
}

/// A block whose index is not the length of the chain is refused with
/// `MismatchedIndex`.
pub proof fn lemma_index_mismatch(v: LedgerView, b: Block)
    requires
        b.index as int != v.blocks.len(),
    ensures
        append_outcome(v, b) == Err::<Set<Digest>, BlockValidationErr>(
            BlockValidationErr::MismatchedIndex,
        ),
{
}

/// A block in which a non-coinbase transaction spends an output that is not
/// unspent is refused; with `InvalidInput` when nothing checked before that
/// transaction refuses it.
pub proof fn lemma_spending_absent_output(v: LedgerView, b: Block, x: Digest, j: int)
    requires
        1 <= j < b.transactions@.len(),
        b.transactions@[j].input_set().contains(x),
        !v.unspent.contains(x),
    ensures
        append_outcome(v, b) is Err,
        header_error(v, b) is None && b.transactions@[0].spec_is_coinbase() && scan_spends(
            v.unspent,
            b.transactions@,
            j,
        ) is Ok ==> append_outcome(v, b) == Err::<Set<Digest>, BlockValidationErr>(
            BlockValidationErr::InvalidInput,
        ),
{
    let txs = b.transactions@;
    if header_error(v, b) is None && txs[0].spec_is_coinbase() {
        if scan_spends(v.unspent, txs, j) is Ok {
            assert(scan_spends(v.unspent, txs, j + 1) == Err::<
                (Set<Digest>, Set<Digest>),
                BlockValidationErr,
            >(BlockValidationErr::InvalidInput));
            lemma_scan_err_persists(v.unspent, txs, j + 1, txs.len() as int);
        } else if scan_spends(v.unspent, txs, txs.len() as int) is Ok {
            lemma_scan_ok(v.unspent, txs, txs.len() as int);
        }
    }
}

/// An output that an accepted block spends, and that no transaction of that
/// block creates again, cannot be spent by the next block: such a block is
/// refused, with `InvalidInput` when nothing checked before the spending
/// transaction refuses it.
pub proof fn lemma_no_double_spend_across_blocks(
    v: LedgerView,
    b1: Block,
    b2: Block,
    x: Digest,
    j: int,
)
    requires
        append_outcome(v, b1) is Ok,
        spends(b1, x),
        !creates(b1, x),
        1 <= j < b2.transactions@.len(),
        b2.transactions@[j].input_set().contains(x),
    ensures
        !after(v, b1).unspent.contains(x),
        append_outcome(after(v, b1), b2) is Err,
        header_error(after(v, b1), b2) is None && b2.transactions@[0].spec_is_coinbase()
            && scan_spends(after(v, b1).unspent, b2.transactions@, j) is Ok ==> append_outcome(
            after(v, b1),
            b2,
        ) == Err::<Set<Digest>, BlockValidationErr>(BlockValidationErr::InvalidInput),
{
    let txs = b1.transactions@;
    let i = choose|i: int| 1 <= i < txs.len() && #[trigger] txs[i].input_set().contains(x);
    lemma_scan_ok(v.unspent, txs, txs.len() as int);
    let (s, c) = scan_spends(v.unspent, txs, txs.len() as int)->Ok_0;
    assert(s.contains(x));
    if c.contains(x) {
        let k = choose|k: int| 1 <= k < txs.len() && #[trigger] txs[k].output_set().contains(x);
        assert(creates(b1, x));
    }
    if txs[0].output_set().contains(x) {
        assert(creates(b1, x));
    }
    lemma_spending_absent_output(after(v, b1), b2, x, j);
}

/// Two non-coinbase transactions of one block that spend the same output
/// get the block refused with `InvalidInput`, when nothing checked before
/// the second of them refuses it.
pub proof fn lemma_no_double_spend_within_block(v: LedgerView, b: Block, x: Digest, j1: int, j2: int)
    requires
        1 <= j1 < j2 < b.transactions@.len(),
        b.transactions@[j1].input_set().contains(x),
        b.transactions@[j2].input_set().contains(x),
        header_error(v, b) is None,
        b.transactions@[0].spec_is_coinbase(),
        scan_spends(v.unspent, b.transactions@, j2) is Ok,
    ensures
        append_outcome(v, b) == Err::<Set<Digest>, BlockValidationErr>(
            BlockValidationErr::InvalidInput,
        ),
{
    let txs = b.transactions@;
    lemma_scan_ok(v.unspent, txs, j2);
    assert(scan_spends(v.unspent, txs, j2)->Ok_0.0.contains(x));
    assert(!txs[j2].input_set().disjoint(scan_spends(v.unspent, txs, j2)->Ok_0.0));
    lemma_scan_err_persists(v.unspent, txs, j2 + 1, txs.len() as int);
}

/// A block with a non-coinbase transaction that creates more value than it
/// spends is refused; with `InsufficientInputValue` when that transaction's
/// inputs are unspent, no earlier transaction of the block spends them, and
/// nothing checked before it refuses the block.
pub proof fn lemma_overspend_rejected(v: LedgerView, b: Block, j: int)
    requires
        1 <= j < b.transactions@.len(),
        b.transactions@[j].output_value > b.transactions@[j].input_value,
    ensures
        append_outcome(v, b) is Err,
        header_error(v, b) is None && b.transactions@[0].spec_is_coinbase() && scan_spends(
            v.unspent,
            b.transactions@,
            j,
        ) is Ok && b.transactions@[j].input_set().subset_of(v.unspent) && (forall|i: int|
            1 <= i < j ==> (#[trigger] b.transactions@[i]).input_set().disjoint(
                b.transactions@[j].input_set(),
            )) ==> append_outcome(v, b) == Err::<Set<Digest>, BlockValidationErr>(
            BlockValidationErr::InsufficientInputValue,
        ),
{
    let txs = b.transactions@;
    if header_error(v, b) is None && txs[0].spec_is_coinbase() {
        if scan_spends(v.unspent, txs, txs.len() as int) is Ok {
            lemma_scan_ok(v.unspent, txs, txs.len() as int);
        }
        if scan_spends(v.unspent, txs, j) is Ok && txs[j].input_set().subset_of(v.unspent) && (
        forall|i: int| 1 <= i < j ==> (#[trigger] txs[i]).input_set().disjoint(txs[j].input_set()))
        {
            lemma_scan_ok(v.unspent, txs, j);
            let s = scan_spends(v.unspent, txs, j)->Ok_0.0;
            assert forall|x: Digest| txs[j].input_set().contains(x) implies !s.contains(x) by {
                if s.contains(x) {
                    let i = choose|i: int| 1 <= i < j && #[trigger] txs[i].input_set().contains(x);
                    assert(txs[i].input_set().disjoint(txs[j].input_set()));
                }
            }
            assert(txs[j].input_set().disjoint(s));
            lemma_scan_err_persists(v.unspent, txs, j + 1, txs.len() as int);
        }
    }
}

/// In an accepted block no non-coinbase transaction creates more value than
/// it spends, and the coinbase pays out at least the fees they leave.
pub proof fn lemma_accepted_value(v: LedgerView, b: Block)
    requires
        append_outcome(v, b) is Ok,
        b.transactions@.len() > 0,
    ensures
        forall|i: int|
            1 <= i < b.transactions@.len() ==> #[trigger] b.transactions@[i].output_value
                <= b.transactions@[i].input_value,
        fees(b.transactions@, b.transactions@.len() as int) <= b.transactions@[0].output_value,
{
    lemma_scan_ok(v.unspent, b.transactions@, b.transactions@.len() as int);
}

/// Once the rest of a block passes, it is refused with
/// `InvalidCoinbaseTransaction` exactly when the fees exceed what the
/// coinbase pays out, and accepted otherwise.
pub proof fn lemma_coinbase_covers_fees(v: LedgerView, b: Block)
    requires
        header_error(v, b) is None,
        b.transactions@.len() > 0,
        b.transactions@[0].spec_is_coinbase(),
        scan_spends(v.unspent, b.transactions@, b.transactions@.len() as int) is Ok,
    ensures
        fees(b.transactions@, b.transactions@.len() as int) > b.transactions@[0].output_value
            ==> append_outcome(v, b) == Err::<Set<Digest>, BlockValidationErr>(
            BlockValidationErr::InvalidCoinbaseTransaction,
        ),
        fees(b.transactions@, b.transactions@.len() as int) <= b.transactions@[0].output_value
            ==> append_outcome(v, b) is Ok,
{
}

/// The first block is accepted only with the zero sentinel as its previous
/// hash; with another one it is refused with `InvalidGenesisBlockFormat`
/// once its index and hash pass.
pub proof fn lemma_genesis_shape(v: LedgerView, b: Block)
    requires
        v.blocks.len() == 0,
    ensures
        append_outcome(v, b) is Ok ==> b.prev_block_hash@ == zero_hash(),
        b.index == 0 && meets_difficulty(b.hash@, v.difficulty) && b.prev_block_hash@
            != zero_hash() ==> append_outcome(v, b) == Err::<Set<Digest>, BlockValidationErr>(
            BlockValidationErr::InvalidGenesisBlockFormat,
        ),
{
}

/// A block that does not come strictly after the last block in time is
/// refused; with `AchronologicalTimestamp` once its index and hash pass.
pub proof fn lemma_timestamp_order(v: LedgerView, b: Block)
    requires
        v.blocks.len() > 0,
        b.timestamp <= v.blocks.last().timestamp,
    ensures
        append_outcome(v, b) is Err,
        b.index as int == v.blocks.len() && meets_difficulty(b.hash@, v.difficulty) ==> append_outcome(
            v,
            b,
        ) == Err::<Set<Digest>, BlockValidationErr>(BlockValidationErr::AchronologicalTimestamp),
{
}

/// The shape of a valid chain: each block stands at its own index and meets
/// the difficulty; the first links to the zero sentinel; every other one
/// links to the hash of the block before it and comes strictly after it.
pub proof fn lemma_chain_shape(blocks: Seq<Block>, difficulty: u128)
    requires
        valid_chain(blocks, difficulty),
    ensures
        forall|i: int| 0 <= i < blocks.len() ==> (#[trigger] blocks[i]).index == i,
        forall|i: int| 0 <= i < blocks.len() ==> meets_difficulty((#[trigger] blocks[i]).hash@, difficulty),
        blocks.len() > 0 ==> blocks[0].prev_block_hash@ == zero_hash(),
        forall|i: int|
            0 < i < blocks.len() ==> (#[trigger] blocks[i]).prev_block_hash == blocks[i - 1].hash
                && blocks[i].timestamp > blocks[i - 1].timestamp,
    decreases blocks.len(),
{
    if blocks.len() > 0 {
        let prefix = blocks.drop_last();
        lemma_chain_shape(prefix, difficulty);
        assert(header_error(chain_view(prefix, difficulty), blocks.last()) is None);
        assert forall|i: int| 0 <= i < blocks.len() - 1 implies blocks[i] == prefix[i] by {}
    }
}

} // verus!
