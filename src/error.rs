//! The error taxonomy of the wallet core.

use vstd::prelude::*;

verus! {

/// Every failure that the wallet core reports.
#[derive(Debug, Clone, PartialEq, Eq)]
pub enum WalletError {
    /// The entropy does not encode a valid mnemonic.
    InvalidMnemonic,
    /// The stretched seed could not be turned into a master key.
    KeyDerivationFailed,
    /// The descriptors could not be built from the master key.
    DescriptorConstructionFailed,
    /// The storage namespace could not be opened or created.
    StorageUnavailable,
    /// The stored structure could not be read.
    StorageCorrupt,
    /// A transient failure of the chain source aborted the pass.
    SyncFailed,
    /// The chain source answered with something that could not be decoded.
    ChainSourceProtocolError,
    /// Another pass is already running for this wallet.
    SyncInProgress,
    /// The pass was cancelled before its commit.
    SyncCancelled,
    /// A stored transaction claims confirmation but carries no height.
    InconsistentState,
}

} // verus!
