//! Core of a single-signer hierarchical-deterministic Bitcoin wallet:
//! deterministic key derivation from a mnemonic, a wallet identifier,
//! a verified synchronization pass over chain observations, and reporting.

mod codec;
mod error;
mod gap;
mod keys;
mod model;
mod report;
mod scripts;
mod session;
mod store;
mod sync;

pub use error::WalletError;
pub use gap::{GapScan, DEFAULT_GAP};
pub use keys::{derive_master_key, wallet_id, wallet_name, MasterKey, Network};
pub use model::{ChainTx, Hash32, Keychain, OutPoint, ScriptInfo, TxOut, TxRecord, Utxo, WalletState};
pub use scripts::{script_at, script_id, HARDENED_START};
pub use session::WalletContext;
pub use store::{decode_state, encode_state, open_state, Opened};
pub use sync::{check_chain, compute_utxos, note_txid, sync, ChainView};
pub use report::{balance, list_transactions, Balance};
