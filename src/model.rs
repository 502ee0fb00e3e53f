//! The wallet's data: chain observations, stored records and the wallet state.

use vstd::prelude::*;

verus! {

/// A 32-byte hash (a transaction id or a script hash), as two big-endian halves.
#[derive(Debug, Clone, Copy, PartialEq, Eq, Structural)]
pub struct Hash32 {
    pub hi: u128,
    pub lo: u128,
}

/// Derivation branch: receive addresses or change addresses.
#[derive(Debug, Clone, Copy, PartialEq, Eq, Structural)]
pub enum Keychain {
    External,
    Internal,
}

/// A reference to one output of a transaction.
#[derive(Debug, Clone, Copy, PartialEq, Eq, Structural)]
pub struct OutPoint {
    pub txid: Hash32,
    pub vout: u32,
}

/// An output: the hash of the script it pays and its value in satoshis.
#[derive(Debug, Clone, Copy, PartialEq, Eq, Structural)]
pub struct TxOut {
    pub script: Hash32,
    pub value: u64,
}

/// A script the wallet has derived, with where it was derived.
#[derive(Debug, Clone, Copy, PartialEq, Eq, Structural)]
pub struct ScriptInfo {
    pub script: Hash32,
    pub keychain: Keychain,
    pub index: u32,
}

/// A transaction as the chain source currently reports it; `height` is
/// `None` while it is unconfirmed.
#[derive(Debug, Clone, PartialEq, Eq)]
pub struct ChainTx {
    pub txid: Hash32,
    pub inputs: Vec<OutPoint>,
    pub outputs: Vec<TxOut>,
    pub height: Option<u32>,
}

/// A stored transaction: its id, its confirmation status, the position in
/// which the wallet first saw it, and its effect on the wallet: the value it
/// pays to wallet scripts and the value of wallet outputs it spends (its net
/// value is `received - sent`).
#[derive(Debug, Clone, Copy, PartialEq, Eq, Structural)]
pub struct TxRecord {
    pub txid: Hash32,
    pub confirmed: bool,
    pub height: Option<u32>,
    pub first_seen: u64,
    pub received: u128,
    pub sent: u128,
}

/// An unspent output that pays one of the wallet's scripts.
#[derive(Debug, Clone, Copy, PartialEq, Eq, Structural)]
pub struct Utxo {
    pub outpoint: OutPoint,
    pub script: Hash32,
    pub value: u64,
    pub keychain: Keychain,
    pub index: u32,
    pub confirmed: bool,
}

/// Everything persisted for one wallet.
#[derive(Debug, Clone, PartialEq, Eq)]
pub struct WalletState {
    /// How many receive scripts have been derived and watched.
    pub external_index: u32,
    /// How many change scripts have been derived and watched.
    pub internal_index: u32,
    pub txs: Vec<TxRecord>,
    pub utxos: Vec<Utxo>,
    /// The position the next newly seen transaction gets.
    pub next_seen: u64,
}

/// The mathematical content of a `WalletState`.
pub struct WalletModel {
    pub external_index: u32,
    pub internal_index: u32,
    pub txs: Seq<TxRecord>,
    pub utxos: Seq<Utxo>,
    pub next_seen: u64,
}

impl View for WalletState {
    type V = WalletModel;

    open spec fn view(&self) -> WalletModel {
        WalletModel {
            external_index: self.external_index,
            internal_index: self.internal_index,
            txs: self.txs@,
            utxos: self.utxos@,
            next_seen: self.next_seen,
        }
    }
}

impl WalletState {
    /// The model of a wallet that has never been synchronized.
    pub open spec fn new_model() -> WalletModel {
        WalletModel {
            external_index: 0,
            internal_index: 0,
            txs: Seq::empty(),
            utxos: Seq::empty(),
            next_seen: 0,
        }
    }

    /// The state of a wallet that has never been synchronized.
    pub fn new() -> (r: WalletState)
        ensures
            r@ == Self::new_model(),
    {
        WalletState { external_index: 0, internal_index: 0, txs: Vec::new(), utxos: Vec::new(), next_seen: 0 }
    }
}

} // verus!
