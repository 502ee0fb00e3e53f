//! Reporting: balance and the ordered transaction history.

use crate::error::WalletError;
use crate::model::{TxRecord, Utxo, WalletState};
use vstd::prelude::*;

verus! {

broadcast use vstd::seq_lib::group_to_multiset_ensures;

/// Aggregate value of the wallet's unspent outputs, in satoshis.
#[derive(Debug, Clone, Copy, PartialEq, Eq, Structural)]
pub struct Balance {
    pub confirmed: u128,
    pub unconfirmed: u128,
}

/// Sum of the values of the outputs in `us` whose confirmation flag is `confirmed`.
pub open spec fn sum_where(us: Seq<Utxo>, confirmed: bool) -> nat
    decreases us.len(),
{
    if us.len() == 0 {
        0
    } else {
        sum_where(us.drop_last(), confirmed) + if us.last().confirmed == confirmed {
            us.last().value as nat
        } else {
            0
        }
    }
}

proof fn lemma_sum_where_bound(us: Seq<Utxo>, confirmed: bool)
    ensures
        sum_where(us, confirmed) <= us.len() * 0xffff_ffff_ffff_ffffnat,
    decreases us.len(),
{
    if us.len() > 0 {
        lemma_sum_where_bound(us.drop_last(), confirmed);
    }
}

/// The balance of a wallet: the confirmed and the unconfirmed unspent value.
pub fn balance(state: &WalletState) -> (r: Balance)
    ensures
        r.confirmed == sum_where(state.utxos@, true),
        r.unconfirmed == sum_where(state.utxos@, false),
{
    let mut confirmed: u128 = 0;
    let mut unconfirmed: u128 = 0;
    let n = state.utxos.len();
    let mut i: usize = 0;
    while i < n
        invariant
            n == state.utxos@.len(),
            i <= n,
            confirmed == sum_where(state.utxos@.take(i as int), true),
            unconfirmed == sum_where(state.utxos@.take(i as int), false),
        decreases n - i,
    {
        let u = state.utxos[i];
        proof {
            let s = state.utxos@.take(i as int + 1);
            assert(s.drop_last() =~= state.utxos@.take(i as int));
            lemma_sum_where_bound(state.utxos@.take(i as int), true);
            lemma_sum_where_bound(state.utxos@.take(i as int), false);
            assert(i * 0xffff_ffff_ffff_ffffnat <= 0xffff_ffff_ffff_ffff_ffff_ffffnat * 0xffff_ffff_ffff_ffffnat) by (nonlinear_arith)
                requires i <= 0xffff_ffff_ffff_ffff_ffff_ffffnat;
        }
        if u.confirmed {
            confirmed = confirmed + u.value as u128;
        } else {
            unconfirmed = unconfirmed + u.value as u128;
        }
        i = i + 1;
    }
    assert(state.utxos@.take(n as int) =~= state.utxos@);
    Balance { confirmed, unconfirmed }
}

/// The height used for ordering; absent heights count as zero.
pub open spec fn height_or_zero(r: TxRecord) -> u32 {
    match r.height {
        Some(h) => h,
        None => 0,
    }
}

/// Whether `a` may stand before `b` in the history: confirmed before
/// unconfirmed, confirmed by ascending height, then by first-seen position,
/// then by transaction id.
pub open spec fn tx_before(a: TxRecord, b: TxRecord) -> bool {
    if a.confirmed != b.confirmed {
        a.confirmed
    } else if a.confirmed && height_or_zero(a) != height_or_zero(b) {
        height_or_zero(a) < height_or_zero(b)
    } else if a.first_seen != b.first_seen {
        a.first_seen < b.first_seen
    } else if a.txid.hi != b.txid.hi {
        a.txid.hi < b.txid.hi
    } else {
        a.txid.lo <= b.txid.lo
    }
}

/// Every pair of entries stands in history order.
pub open spec fn is_ordered(s: Seq<TxRecord>) -> bool {
    forall|i: int, j: int| 0 <= i < j < s.len() ==> tx_before(#[trigger] s[i], #[trigger] s[j])
}

/// A record that claims confirmation but has no height.
pub open spec fn is_inconsistent(r: TxRecord) -> bool {
    r.confirmed && r.height is None
}

/// Some record of `s` is inconsistent.
pub open spec fn has_inconsistent(s: Seq<TxRecord>) -> bool {
    exists|i: int| 0 <= i < s.len() && is_inconsistent(#[trigger] s[i])
}

fn tx_before_exec(a: &TxRecord, b: &TxRecord) -> (r: bool)
    ensures
        r == tx_before(*a, *b),
{
    let ha: u32 = match a.height {
        Some(h) => h,
        None => 0,
    };
    let hb: u32 = match b.height {
        Some(h) => h,
        None => 0,
    };
    if a.confirmed != b.confirmed {
        a.confirmed
    } else if a.confirmed && ha != hb {
        ha < hb
    } else if a.first_seen != b.first_seen {
        a.first_seen < b.first_seen
    } else if a.txid.hi != b.txid.hi {
        a.txid.hi < b.txid.hi
    } else {
        a.txid.lo <= b.txid.lo
    }
}

/// The wallet's transactions in history order: confirmed ones by ascending
/// height, then unconfirmed ones by first-seen position. Fails with
/// `InconsistentState` when a record claims confirmation without a height.
pub fn list_transactions(state: &WalletState) -> (r: Result<Vec<TxRecord>, WalletError>)
    ensures
        has_inconsistent(state.txs@) ==> r == Err::<Vec<TxRecord>, WalletError>(WalletError::InconsistentState),
        !has_inconsistent(state.txs@) ==> r is Ok && is_ordered(r->Ok_0@)
            && r->Ok_0@.to_multiset() == state.txs@.to_multiset(),
{
    let n = state.txs.len();
    let mut out: Vec<TxRecord> = Vec::new();
    let mut i: usize = 0;
    while i < n
        invariant
            n == state.txs@.len(),
            i <= n,
            is_ordered(out@),
            out@.to_multiset() == state.txs@.take(i as int).to_multiset(),
            forall|k: int| 0 <= k < i ==> !is_inconsistent(#[trigger] state.txs@[k]),
        decreases n - i,
    {
        let x = state.txs[i];
        if x.confirmed && x.height.is_none() {
            return Err(WalletError::InconsistentState);
        }
        let m = out.len();
        let mut p: usize = 0;
        while p < m && tx_before_exec(&out[p], &x)
            invariant
                m == out@.len(),
                p <= m,
                forall|k: int| 0 <= k < p ==> tx_before(#[trigger] out@[k], x),
            decreases m - p,
        {
            p = p + 1;
        }
        proof {
            assert forall|k: int| p <= k < m implies tx_before(x, #[trigger] out@[k]) by {
                assert(!tx_before(out@[p as int], x));
                if k > p {
                    assert(tx_before(out@[p as int], out@[k]));
                }
            }
            assert(state.txs@.take(i as int + 1) =~= state.txs@.take(i as int).push(x));
        }
        let ghost before = out@;
        out.insert(p, x);
        proof {
            assert(out@ =~= before.insert(p as int, x));
            vstd::seq_lib::to_multiset_insert(before, p as int, x);
            assert forall|a: int, b: int| 0 <= a < b < out@.len() implies tx_before(#[trigger] out@[a], #[trigger] out@[b]) by {
                if b < p {
                } else if a < p && b == p {
                } else if a < p && b > p {
                    assert(out@[b] == before[b - 1]);
                } else if a == p {
                    assert(out@[b] == before[b - 1]);
                } else {
                    assert(out@[a] == before[a - 1]);
                    assert(out@[b] == before[b - 1]);
                }
            }
        }
        i = i + 1;
    }
    assert(state.txs@.take(n as int) =~= state.txs@);
    Ok(out)
}

/// History order: in an ordered history every confirmed entry precedes every
/// unconfirmed one, confirmed entries ascend by height, and any two entries
/// are comparable one way or the other.
pub proof fn lemma_history_order(s: Seq<TxRecord>)
    requires
        is_ordered(s),
    ensures
        forall|i: int, j: int| 0 <= i < j < s.len() && (#[trigger] s[j]).confirmed ==> (#[trigger] s[i]).confirmed,
        forall|i: int, j: int| 0 <= i < j < s.len() && (#[trigger] s[i]).confirmed && (#[trigger] s[j]).confirmed
            ==> height_or_zero(s[i]) <= height_or_zero(s[j]),
        forall|a: TxRecord, b: TxRecord| tx_before(a, b) || tx_before(b, a),
{
    assert forall|i: int, j: int| 0 <= i < j < s.len() && (#[trigger] s[j]).confirmed implies (#[trigger] s[i]).confirmed by {
        assert(tx_before(s[i], s[j]));
    }
    assert forall|i: int, j: int| 0 <= i < j < s.len() && (#[trigger] s[i]).confirmed && (#[trigger] s[j]).confirmed
        implies height_or_zero(s[i]) <= height_or_zero(s[j]) by {
        assert(tx_before(s[i], s[j]));
    }
}

} // verus!
