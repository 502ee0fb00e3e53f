//! Key derivation: mnemonic entropy to BIP32 master key, and the wallet identifier.

use crate::error::WalletError;
use vstd::prelude::*;

verus! {

/// The chain a key belongs to.
#[derive(Debug, Clone, Copy, PartialEq, Eq, Structural)]
pub enum Network {
    Bitcoin,
    Testnet,
    Signet,
    Regtest,
}

/// A BIP32 master extended private key, held as its 78-byte serialization
/// together with the network it was made for.
#[derive(Debug, Clone, PartialEq, Eq)]
pub struct MasterKey {
    pub network: Network,
    pub encoded: Vec<u8>,
}

/// The context label that separates this wallet's key material from any
/// other use of the same mnemonic.
pub const WALLET_SEED_LABEL: &'static str = "BITCOIN_WALLET_SEED";

/// Length in bytes of the stretched wallet seed.
pub const WALLET_SEED_LEN: usize = 64;

/// The 64-byte BIP39 seed of a mnemonic (given by its entropy) with an empty passphrase.
pub uninterp spec fn bip39_seed_of(entropy: Seq<u8>) -> Seq<u8>;

/// HKDF-SHA256 with no salt, expanded with `info` to `len` bytes.
pub uninterp spec fn hkdf_sha256_of(ikm: Seq<u8>, info: Seq<char>, len: nat) -> Seq<u8>;

/// The serialized BIP32 master key of a seed, or `None` where the seed gives
/// no valid secret key.
pub uninterp spec fn bip32_master_of(network: Network, seed: Seq<u8>) -> Option<Seq<u8>>;

/// The name of the wallet whose receive and change descriptors are the BIP84
/// templates over a serialized master key, or `None` where they cannot be built.
pub uninterp spec fn wallet_name_of(network: Network, master: Seq<u8>) -> Option<Seq<char>>;

/// Entropy lengths (in bytes) that encode a mnemonic: 128 to 256 bits, a multiple of 32.
pub open spec fn valid_entropy_len(n: nat) -> bool {
    n % 4 == 0 && 16 <= n <= 32
}

/// The stretched wallet seed of a mnemonic.
pub open spec fn wallet_seed_of(entropy: Seq<u8>) -> Seq<u8> {
    hkdf_sha256_of(bip39_seed_of(entropy), WALLET_SEED_LABEL@, WALLET_SEED_LEN as nat)
}

/// What `derive_master_key` owes for the given entropy and network.
pub open spec fn derives(entropy: Seq<u8>, network: Network, r: Result<MasterKey, WalletError>) -> bool {
    if !valid_entropy_len(entropy.len()) {
        r == Err::<MasterKey, WalletError>(WalletError::InvalidMnemonic)
    } else {
        match bip32_master_of(network, wallet_seed_of(entropy)) {
            None => r == Err::<MasterKey, WalletError>(WalletError::KeyDerivationFailed),
            Some(k) => r is Ok && r->Ok_0.network == network && r->Ok_0.encoded@ == k,
        }
    }
}

/// What `wallet_name` owes for a key and a network.
pub open spec fn names(key: MasterKey, network: Network, r: Result<String, WalletError>) -> bool {
    match wallet_name_of(network, key.encoded@) {
        None => r == Err::<String, WalletError>(WalletError::DescriptorConstructionFailed),
        Some(n) => r is Ok && r->Ok_0@ == n,
    }
}

/// Relies on bip39's `Mnemonic::from_entropy` (English), which accepts exactly
/// 16 to 32 bytes in steps of 4, and `Mnemonic::to_seed_normalized`, which
/// returns 64 bytes.
#[verifier::external_body]
fn mnemonic_seed(entropy: &Vec<u8>) -> (r: Option<Vec<u8>>)
    ensures
        r is Some <==> valid_entropy_len(entropy@.len()),
        r is Some ==> r->Some_0@ == bip39_seed_of(entropy@) && r->Some_0@.len() == 64,
{
    match bip39::Mnemonic::from_entropy(entropy) {
        Ok(m) => Some(m.to_seed_normalized("").to_vec()),
        Err(_) => None,
    }
}

/// Relies on hkdf's `Hkdf::<Sha256>::new` (no salt) and `Hkdf::expand`, which
/// fills the output unless it is longer than 255 blocks of 32 bytes.
#[verifier::external_body]
fn hkdf_sha256_expand(ikm: &Vec<u8>, info: &str, len: usize) -> (r: Option<Vec<u8>>)
    ensures
        r is Some <==> len <= 8160,
        r is Some ==> r->Some_0@ == hkdf_sha256_of(ikm@, info@, len as nat) && r->Some_0@.len() == len,
{
    let mut okm = vec![0u8; len];
    match hkdf::Hkdf::<sha2::Sha256>::new(None, ikm).expand(info.as_bytes(), &mut okm) {
        Ok(()) => Some(okm),
        Err(_) => None,
    }
}

/// Relies on bitcoin's `ExtendedPrivKey::new_master` and `ExtendedPrivKey::encode`,
/// which gives 78 bytes.
#[verifier::external_body]
fn bip32_master(network: Network, seed: &Vec<u8>) -> (r: Option<Vec<u8>>)
    ensures
        r is None <==> bip32_master_of(network, seed@) is None,
        r is Some ==> bip32_master_of(network, seed@) == Some(r->Some_0@) && r->Some_0@.len() == 78,
{
    let net = match network {
        Network::Bitcoin => bitcoin::Network::Bitcoin,
        Network::Testnet => bitcoin::Network::Testnet,
        Network::Signet => bitcoin::Network::Signet,
        Network::Regtest => bitcoin::Network::Regtest,
    };
    bitcoin::util::bip32::ExtendedPrivKey::new_master(net, seed).ok().map(|k| k.encode().to_vec())
}

/// Relies on bdk's `wallet_name_from_descriptor` over the BIP84 templates of the
/// key decoded by bitcoin's `ExtendedPrivKey::decode`.
#[verifier::external_body]
fn bip84_wallet_name(network: Network, master: &Vec<u8>) -> (r: Option<String>)
    ensures
        r is None <==> wallet_name_of(network, master@) is None,
        r is Some ==> wallet_name_of(network, master@) == Some(r->Some_0@),
{
    let net = match network {
        Network::Bitcoin => bitcoin::Network::Bitcoin,
        Network::Testnet => bitcoin::Network::Testnet,
        Network::Signet => bitcoin::Network::Signet,
        Network::Regtest => bitcoin::Network::Regtest,
    };
    let xprv = bitcoin::util::bip32::ExtendedPrivKey::decode(master).ok()?;
    let receive = bdk::template::Bip84(xprv, bdk::KeychainKind::External);
    let change = bdk::template::Bip84(xprv, bdk::KeychainKind::Internal);
    let secp = bitcoin::secp256k1::Secp256k1::new();
    bdk::wallet::wallet_name_from_descriptor(receive, Some(change), net, &secp).ok()
}

/// Derives the master extended key of a mnemonic given by its entropy: the
/// BIP39 seed with an empty passphrase, stretched by HKDF with the wallet's
/// label to 64 bytes, becomes the BIP32 master seed for `network`.
pub fn derive_master_key(entropy: &Vec<u8>, network: Network) -> (r: Result<MasterKey, WalletError>)
    ensures
        derives(entropy@, network, r),
{
    let seed = match mnemonic_seed(entropy) {
        Some(s) => s,
        None => return Err(WalletError::InvalidMnemonic),
    };
    let stretched = match hkdf_sha256_expand(&seed, WALLET_SEED_LABEL, WALLET_SEED_LEN) {
        Some(s) => s,
        None => return Err(WalletError::KeyDerivationFailed),
    };
    match bip32_master(network, &stretched) {
        Some(encoded) => Ok(MasterKey { network, encoded }),
        None => Err(WalletError::KeyDerivationFailed),
    }
}

/// The wallet name of a master key on `network`: the checksums of its BIP84
/// receive and change descriptors, which depend on public key material only.
pub fn wallet_name(key: &MasterKey, network: Network) -> (r: Result<String, WalletError>)
    ensures
        names(*key, network, r),
{
    match bip84_wallet_name(network, &key.encoded) {
        Some(n) => Ok(n),
        None => Err(WalletError::DescriptorConstructionFailed),
    }
}

/// The identifier under which a wallet's state is kept: its name on the
/// key's own network.
pub fn wallet_id(key: &MasterKey) -> (r: Result<String, WalletError>)
    ensures
        names(*key, key.network, r),
{
    wallet_name(key, key.network)
}

/// Deriving the master key is a function of the mnemonic and the network:
/// two derivations from the same inputs give bit-identical keys.
pub proof fn lemma_derivation_deterministic(
    entropy: Seq<u8>,
    network: Network,
    a: Result<MasterKey, WalletError>,
    b: Result<MasterKey, WalletError>,
)
    requires
        derives(entropy, network, a),
        derives(entropy, network, b),
    ensures
        a is Ok <==> b is Ok,
        a is Ok ==> a->Ok_0.network == b->Ok_0.network && a->Ok_0.encoded@ == b->Ok_0.encoded@,
        a is Err ==> a == b,
{
}

/// The wallet identifier is stable: recomputed from the same mnemonic and
/// network, it is the same identifier.
pub proof fn lemma_wallet_id_stable(
    entropy: Seq<u8>,
    network: Network,
    k1: MasterKey,
    k2: MasterKey,
    id1: Result<String, WalletError>,
    id2: Result<String, WalletError>,
)
    requires
        derives(entropy, network, Ok(k1)),
        derives(entropy, network, Ok(k2)),
        names(k1, k1.network, id1),
        names(k2, k2.network, id2),
    ensures
        id1 is Ok <==> id2 is Ok,
        id1 is Ok ==> id1->Ok_0@ == id2->Ok_0@,
        id1 is Err ==> id1 == id2,
{
}

} // verus!
