//! The wallet's output scripts and the identifiers it matches outputs by.

use crate::error::WalletError;
use crate::keys::{MasterKey, Network};
use crate::model::{Hash32, Keychain, ScriptInfo};
use vstd::prelude::*;

verus! {

/// The output script at `index` of the BIP84 descriptor of `keychain` over a
/// serialized master key, or `None` where the descriptor cannot be built.
pub uninterp spec fn bip84_script_of(network: Network, master: Seq<u8>, keychain: Keychain, index: u32) -> Option<Seq<u8>>;

/// The SHA-256 digest of a script, as two big-endian halves.
pub uninterp spec fn sha256_id_of(script: Seq<u8>) -> Hash32;

/// Child indices below this bound are unhardened.
pub const HARDENED_START: u32 = 0x8000_0000;

/// Relies on bitcoin's `ExtendedPrivKey::decode`, bdk's `Bip84` template
/// (`DescriptorTemplate::build`), and miniscript's `at_derivation_index`
/// (which panics from 2^31 on) and `script_pubkey`.
#[verifier::external_body]
fn bip84_script(network: Network, master: &Vec<u8>, keychain: Keychain, index: u32) -> (r: Option<Vec<u8>>)
    requires
        index < HARDENED_START,
    ensures
        r is None <==> bip84_script_of(network, master@, keychain, index) is None,
        r is Some ==> bip84_script_of(network, master@, keychain, index) == Some(r->Some_0@),
{
    let net = match network {
        Network::Bitcoin => bitcoin::Network::Bitcoin,
        Network::Testnet => bitcoin::Network::Testnet,
        Network::Signet => bitcoin::Network::Signet,
        Network::Regtest => bitcoin::Network::Regtest,
    };
    let kind = match keychain {
        Keychain::External => bdk::KeychainKind::External,
        Keychain::Internal => bdk::KeychainKind::Internal,
    };
    let xprv = bitcoin::util::bip32::ExtendedPrivKey::decode(master).ok()?;
    let (descriptor, _, _) = bdk::template::DescriptorTemplate::build(bdk::template::Bip84(xprv, kind), net).ok()?;
    Some(descriptor.at_derivation_index(index).script_pubkey().to_bytes())
}

/// Relies on sha2's `Sha256::digest`: 32 bytes, split into two big-endian halves.
#[verifier::external_body]
fn sha256_id(script: &Vec<u8>) -> (r: Hash32)
    ensures
        r == sha256_id_of(script@),
{
    let d = <sha2::Sha256 as sha2::Digest>::digest(script);
    let mut hi = [0u8; 16];
    let mut lo = [0u8; 16];
    hi.copy_from_slice(&d[0..16]);
    lo.copy_from_slice(&d[16..32]);
    Hash32 { hi: u128::from_be_bytes(hi), lo: u128::from_be_bytes(lo) }
}

/// The identifier under which the wallet matches an output script: its SHA-256 digest.
pub fn script_id(script: &Vec<u8>) -> (r: Hash32)
    ensures
        r == sha256_id_of(script@),
{
    sha256_id(script)
}

/// The output script of `key`'s BIP84 `keychain` at `index`, with the record
/// the sync pass matches outputs against.
pub fn script_at(key: &MasterKey, keychain: Keychain, index: u32) -> (r: Result<(Vec<u8>, ScriptInfo), WalletError>)
    requires
        index < HARDENED_START,
    ensures
        bip84_script_of(key.network, key.encoded@, keychain, index) is None
            ==> r == Err::<(Vec<u8>, ScriptInfo), WalletError>(WalletError::DescriptorConstructionFailed),
        bip84_script_of(key.network, key.encoded@, keychain, index) matches Some(s) ==> r is Ok
            && r->Ok_0.0@ == s
            && r->Ok_0.1 == (ScriptInfo { script: sha256_id_of(s), keychain, index }),
{
    match bip84_script(key.network, &key.encoded, keychain, index) {
        Some(script) => {
            let id = sha256_id(&script);
            Ok((script, ScriptInfo { script: id, keychain, index }))
        },
        None => Err(WalletError::DescriptorConstructionFailed),
    }
}

} // verus!
