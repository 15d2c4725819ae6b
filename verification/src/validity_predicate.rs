//! Types that are used in validity predicates.

use vstd::prelude::*;

verus! {

/// A hash of 32 bytes.
#[derive(Clone, Copy, Debug, PartialEq, Eq)]
pub struct Hash(pub [u8; 32]);

/// A transaction in its serialized form.
#[derive(Clone, Debug, PartialEq, Eq)]
pub struct Tx {
    pub bytes: Vec<u8>,
}

/// A validity predicate with an input that is intended to be invoked via the `eval`
/// host function.
#[derive(Clone, Debug)]
pub struct EvalVp {
    /// The hash of the validity predicate's code to `eval`.
    pub vp_code_hash: Hash,
    /// The input for the `eval`ed validity predicate.
    pub input: Tx,
}

/// Sentinel used in validity predicates to signal events that require special replay
/// protection handling back to the protocol.
#[derive(Debug)]
pub enum VpSentinel {
    /// No action required.
    NoAction,
    /// Exceeded gas limit.
    OutOfGas,
    /// Found invalid transaction signature.
    InvalidSignature,
}

impl Default for VpSentinel {
    /// No action required.
    fn default() -> (sentinel: VpSentinel)
        ensures
            sentinel is NoAction,
            !sentinel.out_of_gas(),
            !sentinel.invalid_signature(),
    {
        VpSentinel::NoAction
    }
}

impl VpSentinel {
    /// Whether the gas limit was exceeded.
    pub open spec fn out_of_gas(self) -> bool {
        self is OutOfGas
    }

    /// Whether an invalid transaction signature was found.
    pub open spec fn invalid_signature(self) -> bool {
        self is InvalidSignature
    }

    /// Check if the validity predicate ran out of gas.
    pub fn is_out_of_gas(&self) -> (yes: bool)
        ensures
            yes == self.out_of_gas(),
    {
        matches!(self, VpSentinel::OutOfGas)
    }

    /// Check if the validity predicate found an invalid signature.
    pub fn is_invalid_signature(&self) -> (yes: bool)
        ensures
            yes == self.invalid_signature(),
    {
        matches!(self, VpSentinel::InvalidSignature)
    }

    /// Set the sentinel for an out of gas error.
    pub fn set_out_of_gas(&mut self)
        ensures
            *final(self) == VpSentinel::OutOfGas,
            final(self).out_of_gas(),
            !final(self).invalid_signature(),
    {
        *self = VpSentinel::OutOfGas;
    }

    /// Set the sentinel for an invalid signature error.
    pub fn set_invalid_signature(&mut self)
        ensures
            *final(self) == VpSentinel::InvalidSignature,
            final(self).invalid_signature(),
            !final(self).out_of_gas(),
    {
        *self = VpSentinel::InvalidSignature;
    }
}

/// A sentinel signals at most one event, and it signals none exactly where no action is
/// required.
pub proof fn lemma_sentinel_signals_one_event(sentinel: VpSentinel)
    ensures
        !(sentinel.out_of_gas() && sentinel.invalid_signature()),
        sentinel is NoAction <==> !sentinel.out_of_gas() && !sentinel.invalid_signature(),
{
}

} // verus!
