//! Data model of the ledger: values, outputs, inputs, transactions,
//! verdicts and rejection reasons.
//!
//! Every executable structure has a ghost model (`OutputM`, `InputM`, `TxM`)
//! over `Seq<u8>` so that the contracts of the validator and the applier can
//! be stated mathematically.

use vstd::prelude::*;

verus! {

/// Monetary amount carried by an output; arithmetic on it is always checked.
pub type Value = u128;

/// Byte length of a content-addressing hash (BLAKE2b-256 output).
pub const HASH_LEN: usize = 32;

/// Byte length of an SR25519 public key.
pub const PUBKEY_LEN: usize = 32;

/// Byte length of an SR25519 signature.
pub const SIG_LEN: usize = 64;

/// A 32-byte identifier of a specific output of a specific transaction.
pub type OutputId = Vec<u8>;

/// Ghost model of an output.
pub struct OutputM {
    pub value: Value,
    pub pubkey: Seq<u8>,
}

impl OutputM {
    /// The output's byte shapes are the fixed ones of the data model.
    pub open spec fn wf(self) -> bool {
        self.pubkey.len() == PUBKEY_LEN
    }
}

/// Ghost model of an input.
pub struct InputM {
    pub outpoint: Seq<u8>,
    pub sigscript: Seq<u8>,
}

impl InputM {
    pub open spec fn wf(self) -> bool {
        self.outpoint.len() == HASH_LEN && self.sigscript.len() == SIG_LEN
    }
}

/// Ghost model of a transaction.
pub struct TxM {
    pub inputs: Seq<InputM>,
    pub outputs: Seq<OutputM>,
}

impl TxM {
    pub open spec fn wf(self) -> bool {
        &&& forall|i: int| 0 <= i < self.inputs.len() ==> (#[trigger] self.inputs[i]).wf()
        &&& forall|i: int| 0 <= i < self.outputs.len() ==> (#[trigger] self.outputs[i]).wf()
    }
}

/// An unspent output: a value locked to a bare public key.
#[derive(Clone, Debug, PartialEq, Eq)]
pub struct Output {
    pub value: Value,
    pub pubkey: Vec<u8>,
}

impl View for Output {
    type V = OutputM;

    open spec fn view(&self) -> OutputM {
        OutputM { value: self.value, pubkey: self.pubkey@ }
    }
}

impl Output {
    pub open spec fn wf(self) -> bool {
        self@.wf()
    }
}

/// A reference to an unspent output together with the signature that
/// authorises spending it.
#[derive(Clone, Debug, PartialEq, Eq)]
pub struct Input {
    pub outpoint: OutputId,
    pub sigscript: Vec<u8>,
}

impl View for Input {
    type V = InputM;

    open spec fn view(&self) -> InputM {
        InputM { outpoint: self.outpoint@, sigscript: self.sigscript@ }
    }
}

impl Input {
    pub open spec fn wf(self) -> bool {
        self@.wf()
    }
}

/// An ordered list of inputs to consume and outputs to create.
#[derive(Clone, Debug, PartialEq, Eq)]
pub struct Transaction {
    pub inputs: Vec<Input>,
    pub outputs: Vec<Output>,
}

impl View for Transaction {
    type V = TxM;

    open spec fn view(&self) -> TxM {
        TxM {
            inputs: self.inputs@.map_values(|i: Input| i@),
            outputs: self.outputs@.map_values(|o: Output| o@),
        }
    }
}

impl Transaction {
    pub open spec fn wf(self) -> bool {
        self@.wf()
    }
}

/// Validation failures, reported back to the submitter; none aborts a block.
#[derive(Clone, Copy, PartialEq, Eq, Structural, Debug)]
pub enum RejectReason {
    /// The transaction has no inputs.
    NoInputs,
    /// The transaction has no outputs.
    NoOutputs,
    /// Two inputs reference the same outpoint.
    DuplicateInput,
    /// Two outputs are byte-identical.
    DuplicateOutput,
    /// An input references an absent output (block-execution path only).
    MissingInput,
    /// A sigscript does not verify against the referenced output's key.
    BadSignature,
    /// An output carries value zero.
    ZeroOutput,
    /// A produced output id is already present in the unspent set.
    OutputCollision,
    /// The sum of the referenced input values overflows.
    InputOverflow,
    /// The sum of the output values overflows.
    OutputOverflow,
    /// Output value exceeds input value.
    OverSpend,
}

/// Invariant violations that abort block execution.
#[derive(Clone, Copy, PartialEq, Eq, Structural, Debug)]
pub enum FatalError {
    /// The per-block fee accumulator overflowed.
    RewardOverflow,
    /// An input vanished between validation and application.
    StorageInconsistency,
}

/// Ghost model of a validation verdict.
pub struct VerdictM {
    pub missing: Seq<Seq<u8>>,
    pub provides: Seq<Seq<u8>>,
    pub priority: u64,
    pub longevity: u64,
}

/// What the validator reports to the mempool: the `requires` tags (absent
/// input ids, here `missing`), the `provides` tags (output ids the
/// transaction would create), the priority (the fee, saturated to 64 bits)
/// and the maximum longevity.
pub struct Verdict {
    /// Ids of referenced outputs that are absent from the unspent set;
    /// the mempool's `requires` tags.
    pub missing: Vec<OutputId>,
    /// Ids of the outputs the transaction would create; the mempool's
    /// `provides` tags.
    pub provides: Vec<OutputId>,
    /// The fee, saturated to 64 bits; zero while inputs are missing.
    pub priority: u64,
    /// How long the mempool may retain the transaction.
    pub longevity: u64,
}

impl View for Verdict {
    type V = VerdictM;

    open spec fn view(&self) -> VerdictM {
        VerdictM {
            missing: self.missing@.map_values(|v: Vec<u8>| v@),
            provides: self.provides@.map_values(|v: Vec<u8>| v@),
            priority: self.priority,
            longevity: self.longevity,
        }
    }
}

} // verus!
