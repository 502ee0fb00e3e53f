//! One opened wallet, with at most one synchronization pass in flight.

use crate::error::WalletError;
use crate::model::WalletState;
use crate::sync::{check_chain, sync, synced, well_formed_chain, ChainView};
use vstd::prelude::*;

verus! {

/// One opened wallet: its committed state and whether a pass is in flight.
/// Passes never interleave: a second one is refused while the first runs.
#[derive(Debug)]
pub struct WalletContext {
    pub state: WalletState,
    pub syncing: bool,
}

impl WalletContext {
    /// A context over a state read from the store, with no pass in flight.
    pub fn open(state: WalletState) -> (r: WalletContext)
        ensures
            r.state == state,
            !r.syncing,
    {
        WalletContext { state, syncing: false }
    }

    /// Starts a pass, or refuses with `SyncInProgress` while another runs.
    pub fn begin_sync(&mut self) -> (r: Result<(), WalletError>)
        ensures
            final(self).state == old(self).state,
            old(self).syncing ==> r == Err::<(), WalletError>(WalletError::SyncInProgress) && final(self).syncing,
            !old(self).syncing ==> r is Ok && final(self).syncing,
    {
        if self.syncing {
            return Err(WalletError::SyncInProgress);
        }
        self.syncing = true;
        Ok(())
    }

    /// Abandons the pass in flight before its commit: the state is untouched.
    pub fn cancel(&mut self) -> (r: WalletError)
        ensures
            r == WalletError::SyncCancelled,
            final(self).state == old(self).state,
            !final(self).syncing,
    {
        self.syncing = false;
        WalletError::SyncCancelled
    }

    /// Ends the pass in flight with the chain's full answer, applying it as
    /// one batch; a malformed answer leaves the state as it was.
    pub fn commit(&mut self, chain: &ChainView) -> (r: Result<(), WalletError>)
        requires
            old(self).syncing,
            old(self).state.next_seen + chain.txs@.len() <= u64::MAX,
        ensures
            !final(self).syncing,
            !well_formed_chain(chain.txs@) ==> r == Err::<(), WalletError>(WalletError::ChainSourceProtocolError)
                && final(self).state == old(self).state,
            well_formed_chain(chain.txs@) ==> r is Ok && final(self).state@ == synced(old(self).state@, *chain),
    {
        self.syncing = false;
        if !check_chain(&chain.txs) {
            return Err(WalletError::ChainSourceProtocolError);
        }
        let mut current = WalletState::new();
        std::mem::swap(&mut current, &mut self.state);
        match sync(current, chain) {
            Ok(next) => {
                self.state = next;
                Ok(())
            },
            Err(e) => Err(e),
        }
    }
}

} // verus!
