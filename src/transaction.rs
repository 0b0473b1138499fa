use vstd::prelude::*;

use crate::block::Digest;

verus! {

/// A transfer of value: it consumes the outputs named by `inputs` and creates
/// the outputs named by `outputs`.
#[derive(Clone, Debug)]
pub struct Transaction {
    /// Identifiers of the outputs this transaction spends.
    pub inputs: Vec<Digest>,
    /// Identifiers of the outputs this transaction creates.
    pub outputs: Vec<Digest>,
    /// Total value of the spent outputs.
    pub input_value: u64,
    /// Total value of the created outputs.
    pub output_value: u64,
}

impl Transaction {
    /// A coinbase transaction spends nothing: it creates new value.
    pub open spec fn spec_is_coinbase(&self) -> bool {
        self.inputs@.len() == 0
    }

    /// The set of output identifiers this transaction spends.
    pub open spec fn input_set(&self) -> Set<Digest> {
        self.inputs@.to_set()
    }

    /// The set of output identifiers this transaction creates.
    pub open spec fn output_set(&self) -> Set<Digest> {
        self.outputs@.to_set()
    }

    pub fn is_coinbase(&self) -> (r: bool)
        ensures
            r == self.spec_is_coinbase(),
    {
        self.inputs.len() == 0
    }
}

} // verus!
