//! The synchronization pass: reconciling the stored state with the chain's answer.

use crate::error::WalletError;
use crate::model::{ChainTx, Hash32, OutPoint, ScriptInfo, TxRecord, Utxo, WalletModel, WalletState};
use vstd::prelude::*;

verus! {

/// The chain source's current answer, collected in full before a pass commits:
/// how far each keychain's gap scan reached, every derived script, and every
/// transaction that touches a used script.
#[derive(Debug, Clone, PartialEq, Eq)]
pub struct ChainView {
    pub external_index: u32,
    pub internal_index: u32,
    pub scripts: Vec<ScriptInfo>,
    pub txs: Vec<ChainTx>,
}

/// A chain answer the engine can use: each transaction id occurs once, and
/// every output is addressable by a 32-bit index.
pub open spec fn well_formed_chain(txs: Seq<ChainTx>) -> bool {
    &&& forall|i: int, j: int| 0 <= i < j < txs.len() ==> (#[trigger] txs[i]).txid != (#[trigger] txs[j]).txid
    &&& forall|i: int| 0 <= i < txs.len() ==> (#[trigger] txs[i]).outputs@.len() <= u32::MAX
}

/// The transaction the chain reports under `id`.
pub open spec fn chain_tx(txs: Seq<ChainTx>, id: Hash32) -> Option<ChainTx>
    decreases txs.len(),
{
    if txs.len() == 0 {
        None
    } else if txs.last().txid == id {
        Some(txs.last())
    } else {
        chain_tx(txs.drop_last(), id)
    }
}

/// Total value of the outputs among `outs` that pay a wallet script.
pub open spec fn received_of(outs: Seq<crate::model::TxOut>, scripts: Seq<ScriptInfo>) -> nat
    decreases outs.len(),
{
    if outs.len() == 0 {
        0
    } else {
        received_of(outs.drop_last(), scripts) + if script_lookup(scripts, outs.last().script) is Some {
            outs.last().value as nat
        } else {
            0
        }
    }
}

/// The value of the output `op` where the chain reports it and it pays a
/// wallet script; zero otherwise.
pub open spec fn prevout_value(txs: Seq<ChainTx>, op: OutPoint, scripts: Seq<ScriptInfo>) -> nat {
    match chain_tx(txs, op.txid) {
        Some(t) => if op.vout < t.outputs@.len() && script_lookup(scripts, t.outputs@[op.vout as int].script) is Some {
            t.outputs@[op.vout as int].value as nat
        } else {
            0
        },
        None => 0,
    }
}

/// Total value of the wallet outputs that the inputs `ins` spend.
pub open spec fn sent_of(ins: Seq<OutPoint>, txs: Seq<ChainTx>, scripts: Seq<ScriptInfo>) -> nat
    decreases ins.len(),
{
    if ins.len() == 0 {
        0
    } else {
        sent_of(ins.drop_last(), txs, scripts) + prevout_value(txs, ins.last(), scripts)
    }
}

/// A record re-derived from the chain's answer: status and the value moved
/// to and from the wallet. A transaction the chain no longer reports reverts
/// to unconfirmed and keeps its values.
pub open spec fn refresh(r: TxRecord, c: ChainView) -> TxRecord {
    match chain_tx(c.txs@, r.txid) {
        Some(t) => TxRecord {
            txid: r.txid,
            confirmed: t.height is Some,
            height: t.height,
            first_seen: r.first_seen,
            received: received_of(t.outputs@, c.scripts@) as u128,
            sent: sent_of(t.inputs@, c.txs@, c.scripts@) as u128,
        },
        None => TxRecord {
            txid: r.txid,
            confirmed: false,
            height: None,
            first_seen: r.first_seen,
            received: r.received,
            sent: r.sent,
        },
    }
}

/// The record made for a transaction seen for the first time.
pub open spec fn fresh_record(id: Hash32, c: ChainView, seen: u64) -> TxRecord {
    refresh(TxRecord { txid: id, confirmed: false, height: None, first_seen: seen, received: 0, sent: 0 }, c)
}

/// Some record of `recs` is for transaction `id`.
pub open spec fn has_id(recs: Seq<TxRecord>, id: Hash32) -> bool {
    exists|i: int| 0 <= i < recs.len() && (#[trigger] recs[i]).txid == id
}

/// Appends a record for each transaction of `txs` whose id is not yet
/// recorded, numbering them from `seen`; gives the records and the next number.
pub open spec fn add_new(recs: Seq<TxRecord>, txs: Seq<ChainTx>, c: ChainView, seen: int) -> (Seq<TxRecord>, int)
    decreases txs.len(),
{
    if txs.len() == 0 {
        (recs, seen)
    } else {
        let (p, s) = add_new(recs, txs.drop_last(), c, seen);
        let id = txs.last().txid;
        if has_id(p, id) {
            (p, s)
        } else {
            (p.push(fresh_record(id, c, s as u64)), s + 1)
        }
    }
}

/// Some input of some transaction of `txs` spends `op`.
pub open spec fn spent(txs: Seq<ChainTx>, op: OutPoint) -> bool {
    exists|i: int, k: int|
        0 <= i < txs.len() && 0 <= k < txs[i].inputs@.len() && (#[trigger] txs[i].inputs@[k]) == op
}

/// Where the wallet derived script `h`, if it did.
pub open spec fn script_lookup(scripts: Seq<ScriptInfo>, h: Hash32) -> Option<ScriptInfo>
    decreases scripts.len(),
{
    if scripts.len() == 0 {
        None
    } else if scripts.last().script == h {
        Some(scripts.last())
    } else {
        script_lookup(scripts.drop_last(), h)
    }
}

/// The unspent outputs among `outs` (a prefix of the outputs of `t`) that pay
/// a wallet script.
pub open spec fn outs_utxos(t: ChainTx, outs: Seq<crate::model::TxOut>, all: Seq<ChainTx>, scripts: Seq<ScriptInfo>) -> Seq<Utxo>
    decreases outs.len(),
{
    if outs.len() == 0 {
        Seq::empty()
    } else {
        let p = outs_utxos(t, outs.drop_last(), all, scripts);
        let o = outs.last();
        let op = OutPoint { txid: t.txid, vout: (outs.len() - 1) as u32 };
        match script_lookup(scripts, o.script) {
            Some(si) => if spent(all, op) {
                p
            } else {
                p.push(Utxo {
                    outpoint: op,
                    script: o.script,
                    value: o.value,
                    keychain: si.keychain,
                    index: si.index,
                    confirmed: t.height is Some,
                })
            },
            None => p,
        }
    }
}

/// The unspent wallet outputs of the transactions `txs`, judged against `all`.
pub open spec fn utxos_of(txs: Seq<ChainTx>, all: Seq<ChainTx>, scripts: Seq<ScriptInfo>) -> Seq<Utxo>
    decreases txs.len(),
{
    if txs.len() == 0 {
        Seq::empty()
    } else {
        utxos_of(txs.drop_last(), all, scripts) + outs_utxos(txs.last(), txs.last().outputs@, all, scripts)
    }
}

/// The larger of two indices.
pub open spec fn max_u32(a: u32, b: u32) -> u32 {
    if a >= b { a } else { b }
}

/// The wallet state after one pass over the chain's answer `c`.
pub open spec fn synced(s: WalletModel, c: ChainView) -> WalletModel {
    let refreshed = s.txs.map_values(|r: TxRecord| refresh(r, c));
    let (txs, seen) = add_new(refreshed, c.txs@, c, s.next_seen as int);
    WalletModel {
        external_index: max_u32(s.external_index, c.external_index),
        internal_index: max_u32(s.internal_index, c.internal_index),
        txs,
        utxos: utxos_of(c.txs@, c.txs@, c.scripts@),
        next_seen: seen as u64,
    }
}

fn find_tx(txs: &Vec<ChainTx>, id: Hash32) -> (r: Option<usize>)
    ensures
        r is None ==> chain_tx(txs@, id) is None,
        r matches Some(i) ==> i < txs@.len() && chain_tx(txs@, id) == Some(txs@[i as int]),
{
    let mut found: Option<usize> = None;
    let mut i: usize = 0;
    while i < txs.len()
        invariant
            i <= txs@.len(),
            found is None ==> chain_tx(txs@.take(i as int), id) is None,
            found matches Some(f) ==> f < i && chain_tx(txs@.take(i as int), id) == Some(txs@[f as int]),
        decreases txs@.len() - i,
    {
        proof {
            assert(txs@.take(i as int + 1).drop_last() =~= txs@.take(i as int));
        }
        if txs[i].txid == id {
            found = Some(i);
        }
        i = i + 1;
    }
    assert(txs@.take(txs@.len() as int) =~= txs@);
    found
}

proof fn lemma_received_bound(outs: Seq<crate::model::TxOut>, scripts: Seq<ScriptInfo>)
    ensures
        received_of(outs, scripts) <= outs.len() * 0xffff_ffff_ffff_ffffnat,
    decreases outs.len(),
{
    if outs.len() > 0 {
        lemma_received_bound(outs.drop_last(), scripts);
    }
}

proof fn lemma_sent_bound(ins: Seq<OutPoint>, txs: Seq<ChainTx>, scripts: Seq<ScriptInfo>)
    ensures
        sent_of(ins, txs, scripts) <= ins.len() * 0xffff_ffff_ffff_ffffnat,
    decreases ins.len(),
{
    if ins.len() > 0 {
        lemma_sent_bound(ins.drop_last(), txs, scripts);
    }
}

fn received_exec(outs: &Vec<crate::model::TxOut>, scripts: &Vec<ScriptInfo>) -> (r: u128)
    ensures
        r == received_of(outs@, scripts@),
{
    let mut total: u128 = 0;
    let mut i: usize = 0;
    while i < outs.len()
        invariant
            i <= outs@.len(),
            total == received_of(outs@.take(i as int), scripts@),
        decreases outs@.len() - i,
    {
        proof {
            assert(outs@.take(i as int + 1).drop_last() =~= outs@.take(i as int));
            lemma_received_bound(outs@.take(i as int), scripts@);
            assert(i * 0xffff_ffff_ffff_ffffnat <= 0xffff_ffff_ffff_ffff_ffff_ffffnat * 0xffff_ffff_ffff_ffffnat) by (nonlinear_arith)
                requires i <= 0xffff_ffff_ffff_ffff_ffff_ffffnat;
        }
        if script_lookup_exec(scripts, outs[i].script).is_some() {
            total = total + outs[i].value as u128;
        }
        i = i + 1;
    }
    assert(outs@.take(outs@.len() as int) =~= outs@);
    total
}

fn sent_exec(ins: &Vec<OutPoint>, txs: &Vec<ChainTx>, scripts: &Vec<ScriptInfo>) -> (r: u128)
    ensures
        r == sent_of(ins@, txs@, scripts@),
{
    let mut total: u128 = 0;
    let mut i: usize = 0;
    while i < ins.len()
        invariant
            i <= ins@.len(),
            total == sent_of(ins@.take(i as int), txs@, scripts@),
        decreases ins@.len() - i,
    {
        proof {
            assert(ins@.take(i as int + 1).drop_last() =~= ins@.take(i as int));
            lemma_sent_bound(ins@.take(i as int), txs@, scripts@);
            assert(i * 0xffff_ffff_ffff_ffffnat <= 0xffff_ffff_ffff_ffff_ffff_ffffnat * 0xffff_ffff_ffff_ffffnat) by (nonlinear_arith)
                requires i <= 0xffff_ffff_ffff_ffff_ffff_ffffnat;
        }
        let op = ins[i];
        let mut v: u64 = 0;
        match find_tx(txs, op.txid) {
            Some(k) => {
                let outs = &txs[k].outputs;
                if (op.vout as usize) < outs.len() {
                    if script_lookup_exec(scripts, outs[op.vout as usize].script).is_some() {
                        v = outs[op.vout as usize].value;
                    }
                }
            },
            None => {},
        }
        assert(v == prevout_value(txs@, op, scripts@));
        total = total + v as u128;
        i = i + 1;
    }
    assert(ins@.take(ins@.len() as int) =~= ins@);
    total
}

fn refresh_exec(r: TxRecord, chain: &ChainView) -> (out: TxRecord)
    ensures
        out == refresh(r, *chain),
{
    match find_tx(&chain.txs, r.txid) {
        Some(k) => {
            let t = &chain.txs[k];
            TxRecord {
                txid: r.txid,
                confirmed: t.height.is_some(),
                height: t.height,
                first_seen: r.first_seen,
                received: received_exec(&t.outputs, &chain.scripts),
                sent: sent_exec(&t.inputs, &chain.txs, &chain.scripts),
            }
        },
        None => TxRecord {
            txid: r.txid,
            confirmed: false,
            height: None,
            first_seen: r.first_seen,
            received: r.received,
            sent: r.sent,
        },
    }
}

fn has_id_exec(recs: &Vec<TxRecord>, id: Hash32) -> (r: bool)
    ensures
        r == has_id(recs@, id),
{
    let mut i: usize = 0;
    while i < recs.len()
        invariant
            i <= recs@.len(),
            forall|k: int| 0 <= k < i ==> (#[trigger] recs@[k]).txid != id,
        decreases recs@.len() - i,
    {
        if recs[i].txid == id {
            return true;
        }
        i = i + 1;
    }
    false
}

fn script_lookup_exec(scripts: &Vec<ScriptInfo>, h: Hash32) -> (r: Option<ScriptInfo>)
    ensures
        r == script_lookup(scripts@, h),
{
    let mut found: Option<ScriptInfo> = None;
    let mut i: usize = 0;
    while i < scripts.len()
        invariant
            i <= scripts@.len(),
            found == script_lookup(scripts@.take(i as int), h),
        decreases scripts@.len() - i,
    {
        proof {
            assert(scripts@.take(i as int + 1).drop_last() =~= scripts@.take(i as int));
        }
        if scripts[i].script == h {
            found = Some(scripts[i]);
        }
        i = i + 1;
    }
    assert(scripts@.take(scripts@.len() as int) =~= scripts@);
    found
}

fn spent_exec(txs: &Vec<ChainTx>, op: OutPoint) -> (r: bool)
    ensures
        r == spent(txs@, op),
{
    let mut i: usize = 0;
    while i < txs.len()
        invariant
            i <= txs@.len(),
            forall|a: int, k: int|
                0 <= a < i && 0 <= k < txs@[a].inputs@.len() ==> (#[trigger] txs@[a].inputs@[k]) != op,
        decreases txs@.len() - i,
    {
        let ins = &txs[i].inputs;
        let mut k: usize = 0;
        while k < ins.len()
            invariant
                i < txs@.len(),
                ins@ == txs@[i as int].inputs@,
                k <= ins@.len(),
                forall|j: int| 0 <= j < k ==> ins@[j] != op,
            decreases ins@.len() - k,
        {
            if ins[k] == op {
                assert(txs@[i as int].inputs@[k as int] == op);
                return true;
            }
            k = k + 1;
        }
        i = i + 1;
    }
    false
}

/// Adds a transaction id from one script's history to the ids collected so
/// far, unless it is there already.
pub fn note_txid(ids: &mut Vec<(Hash32, Option<u32>)>, id: Hash32, height: Option<u32>)
    ensures
        (exists|k: int| 0 <= k < old(ids)@.len() && (#[trigger] old(ids)@[k]).0 == id) ==> final(ids)@ == old(ids)@,
        !(exists|k: int| 0 <= k < old(ids)@.len() && (#[trigger] old(ids)@[k]).0 == id) ==> final(ids)@ == old(ids)@.push((id, height)),
{
    let mut i: usize = 0;
    while i < ids.len()
        invariant
            i <= ids@.len(),
            forall|k: int| 0 <= k < i ==> (#[trigger] ids@[k]).0 != id,
        decreases ids@.len() - i,
    {
        if ids[i].0 == id {
            return;
        }
        i = i + 1;
    }
    ids.push((id, height));
}

/// Whether a chain answer is well formed.
pub fn check_chain(txs: &Vec<ChainTx>) -> (r: bool)
    ensures
        r == well_formed_chain(txs@),
{
    let mut i: usize = 0;
    while i < txs.len()
        invariant
            i <= txs@.len(),
            forall|a: int, b: int| 0 <= a < b < i ==> (#[trigger] txs@[a]).txid != (#[trigger] txs@[b]).txid,
            forall|a: int| 0 <= a < i ==> (#[trigger] txs@[a]).outputs@.len() <= u32::MAX,
        decreases txs@.len() - i,
    {
        if txs[i].outputs.len() > 0xffff_ffffusize {
            return false;
        }
        let mut j: usize = 0;
        while j < i
            invariant
                i < txs@.len(),
                j <= i,
                forall|a: int| 0 <= a < j ==> (#[trigger] txs@[a]).txid != txs@[i as int].txid,
            decreases i - j,
        {
            if txs[j].txid == txs[i].txid {
                return false;
            }
            j = j + 1;
        }
        i = i + 1;
    }
    true
}

/// The unspent outputs of the chain's answer that pay one of `scripts`, in
/// the order of the transactions and of their outputs.
pub fn compute_utxos(txs: &Vec<ChainTx>, scripts: &Vec<ScriptInfo>) -> (r: Vec<Utxo>)
    requires
        well_formed_chain(txs@),
    ensures
        r@ == utxos_of(txs@, txs@, scripts@),
{
    let mut out: Vec<Utxo> = Vec::new();
    let mut i: usize = 0;
    while i < txs.len()
        invariant
            i <= txs@.len(),
            well_formed_chain(txs@),
            out@ == utxos_of(txs@.take(i as int), txs@, scripts@),
        decreases txs@.len() - i,
    {
        let t = &txs[i];
        let ghost before = out@;
        let mut j: usize = 0;
        assert(t.outputs@.len() <= u32::MAX);
        assert(t.outputs@.take(0) =~= Seq::<crate::model::TxOut>::empty());
        assert(before =~= before + outs_utxos(*t, t.outputs@.take(0), txs@, scripts@));
        while j < t.outputs.len()
            invariant
                t == &txs@[i as int],
                i < txs@.len(),
                j <= t.outputs@.len(),
                t.outputs@.len() <= u32::MAX,
                out@ == before + outs_utxos(*t, t.outputs@.take(j as int), txs@, scripts@),
            decreases t.outputs@.len() - j,
        {
            let o = t.outputs[j];
            let op = OutPoint { txid: t.txid, vout: j as u32 };
            proof {
                assert(t.outputs@.take(j as int + 1).drop_last() =~= t.outputs@.take(j as int));
            }
            match script_lookup_exec(scripts, o.script) {
                Some(si) => {
                    if !spent_exec(txs, op) {
                        out.push(Utxo {
                            outpoint: op,
                            script: o.script,
                            value: o.value,
                            keychain: si.keychain,
                            index: si.index,
                            confirmed: t.height.is_some(),
                        });
                    }
                },
                None => {},
            }
            proof {
                assert(out@ =~= before + outs_utxos(*t, t.outputs@.take(j as int + 1), txs@, scripts@));
            }
            j = j + 1;
        }
        proof {
            assert(t.outputs@.take(t.outputs@.len() as int) =~= t.outputs@);
            assert(txs@.take(i as int + 1).drop_last() =~= txs@.take(i as int));
        }
        i = i + 1;
    }
    assert(txs@.take(txs@.len() as int) =~= txs@);
    out
}

/// One synchronization pass: re-derives every recorded transaction's status
/// from the chain's answer, records the transactions seen for the first time,
/// recomputes the unspent outputs, and raises each keychain's derived index to
/// what the gap scan reached. A malformed answer changes nothing and is reported.
pub fn sync(state: WalletState, chain: &ChainView) -> (r: Result<WalletState, WalletError>)
    requires
        state.next_seen + chain.txs@.len() <= u64::MAX,
    ensures
        !well_formed_chain(chain.txs@) ==> r == Err::<WalletState, WalletError>(WalletError::ChainSourceProtocolError),
        well_formed_chain(chain.txs@) ==> r is Ok && r->Ok_0@ == synced(state@, *chain),
{
    if !check_chain(&chain.txs) {
        return Err(WalletError::ChainSourceProtocolError);
    }
    let ghost old_txs = state.txs@;
    let mut recs: Vec<TxRecord> = Vec::new();
    let mut i: usize = 0;
    while i < state.txs.len()
        invariant
            i <= old_txs.len(),
            state.txs@ == old_txs,
            recs@ == old_txs.take(i as int).map_values(|r: TxRecord| refresh(r, *chain)),
        decreases old_txs.len() - i,
    {
        let x = refresh_exec(state.txs[i], chain);
        recs.push(x);
        proof {
            assert(recs@ =~= old_txs.take(i as int + 1).map_values(|r: TxRecord| refresh(r, *chain)));
        }
        i = i + 1;
    }
    assert(old_txs.take(old_txs.len() as int) =~= old_txs);
    let ghost refreshed = recs@;
    let mut seen: u64 = state.next_seen;
    let mut k: usize = 0;
    while k < chain.txs.len()
        invariant
            k <= chain.txs@.len(),
            state.next_seen + chain.txs@.len() <= u64::MAX,
            seen <= state.next_seen + k,
            (recs@, seen as int) == add_new(refreshed, chain.txs@.take(k as int), *chain, state.next_seen as int),
        decreases chain.txs@.len() - k,
    {
        let id = chain.txs[k].txid;
        proof {
            assert(chain.txs@.take(k as int + 1).drop_last() =~= chain.txs@.take(k as int));
        }
        if !has_id_exec(&recs, id) {
            let x = refresh_exec(TxRecord { txid: id, confirmed: false, height: None, first_seen: seen, received: 0, sent: 0 }, chain);
            recs.push(x);
            seen = seen + 1;
        }
        k = k + 1;
    }
    assert(chain.txs@.take(chain.txs@.len() as int) =~= chain.txs@);
    let utxos = compute_utxos(&chain.txs, &chain.scripts);
    let external_index = if state.external_index >= chain.external_index {
        state.external_index
    } else {
        chain.external_index
    };
    let internal_index = if state.internal_index >= chain.internal_index {
        state.internal_index
    } else {
        chain.internal_index
    };
    let r = WalletState { external_index, internal_index, txs: recs, utxos, next_seen: seen };
    assert(r@.txs =~= synced(state@, *chain).txs);
    assert(r@.utxos =~= synced(state@, *chain).utxos);
    Ok(r)
}

proof fn lemma_refresh_fixpoint(r: TxRecord, c: ChainView)
    ensures
        refresh(refresh(r, c), c) == refresh(r, c),
{
}

proof fn lemma_add_new_prefix(recs: Seq<TxRecord>, txs: Seq<ChainTx>, c: ChainView, seen: int)
    ensures
        recs.len() <= add_new(recs, txs, c, seen).0.len(),
        forall|i: int| 0 <= i < recs.len() ==> add_new(recs, txs, c, seen).0[i] == recs[i],
    decreases txs.len(),
{
    if txs.len() > 0 {
        lemma_add_new_prefix(recs, txs.drop_last(), c, seen);
    }
}

proof fn lemma_add_new_covers(recs: Seq<TxRecord>, txs: Seq<ChainTx>, c: ChainView, seen: int)
    ensures
        forall|j: int| 0 <= j < txs.len() ==> has_id(add_new(recs, txs, c, seen).0, (#[trigger] txs[j]).txid),
    decreases txs.len(),
{
    if txs.len() > 0 {
        let prev = txs.drop_last();
        lemma_add_new_covers(recs, prev, c, seen);
        let p = add_new(recs, prev, c, seen).0;
        let q = add_new(recs, txs, c, seen).0;
        assert forall|j: int| 0 <= j < txs.len() implies has_id(q, (#[trigger] txs[j]).txid) by {
            if j < txs.len() - 1 {
                assert(prev[j] == txs[j]);
                let w = choose|w: int| 0 <= w < p.len() && (#[trigger] p[w]).txid == txs[j].txid;
                if !has_id(p, txs.last().txid) {
                    assert(q[w] == p[w]);
                }
            } else if !has_id(p, txs.last().txid) {
                assert(q[p.len() as int].txid == txs.last().txid);
            }
        }
    }
}

proof fn lemma_add_new_nothing_new(recs: Seq<TxRecord>, txs: Seq<ChainTx>, c: ChainView, seen: int)
    requires
        forall|j: int| 0 <= j < txs.len() ==> has_id(recs, (#[trigger] txs[j]).txid),
    ensures
        add_new(recs, txs, c, seen) == (recs, seen),
    decreases txs.len(),
{
    if txs.len() > 0 {
        let prev = txs.drop_last();
        assert forall|j: int| 0 <= j < prev.len() implies has_id(recs, (#[trigger] prev[j]).txid) by {
            assert(prev[j] == txs[j]);
        }
        lemma_add_new_nothing_new(recs, prev, c, seen);
        assert(has_id(recs, txs[txs.len() - 1].txid));
    }
}

/// Every record produced by `add_new` from re-derived records is itself a
/// re-derived record.
proof fn lemma_add_new_refreshed(recs: Seq<TxRecord>, txs: Seq<ChainTx>, c: ChainView, seen: int)
    requires
        forall|i: int| 0 <= i < recs.len() ==> refresh(#[trigger] recs[i], c) == recs[i],
    ensures
        forall|i: int| 0 <= i < add_new(recs, txs, c, seen).0.len() ==>
            refresh(#[trigger] add_new(recs, txs, c, seen).0[i], c) == add_new(recs, txs, c, seen).0[i],
    decreases txs.len(),
{
    if txs.len() > 0 {
        lemma_add_new_refreshed(recs, txs.drop_last(), c, seen);
        let (p, s) = add_new(recs, txs.drop_last(), c, seen);
        let q = add_new(recs, txs, c, seen).0;
        if !has_id(p, txs.last().txid) {
            lemma_refresh_fixpoint(TxRecord { txid: txs.last().txid, confirmed: false, height: None, first_seen: s as u64, received: 0, sent: 0 }, c);
            assert forall|i: int| 0 <= i < q.len() implies refresh(#[trigger] q[i], c) == q[i] by {
                if i < p.len() {
                    assert(q[i] == p[i]);
                }
            }
        }
    }
}

proof fn lemma_synced_records_refreshed(s: WalletModel, c: ChainView)
    ensures
        forall|i: int| 0 <= i < synced(s, c).txs.len() ==>
            refresh(#[trigger] synced(s, c).txs[i], c) == synced(s, c).txs[i],
{
    let refreshed = s.txs.map_values(|r: TxRecord| refresh(r, c));
    assert forall|i: int| 0 <= i < refreshed.len() implies refresh(#[trigger] refreshed[i], c) == refreshed[i] by {
        lemma_refresh_fixpoint(s.txs[i], c);
    }
    lemma_add_new_refreshed(refreshed, c.txs@, c, s.next_seen as int);
}

/// A second pass over an unchanged chain answer changes nothing: the state
/// after two passes is the state after one.
pub proof fn lemma_sync_idempotent(s: WalletModel, c: ChainView)
    ensures
        synced(synced(s, c), c) == synced(s, c),
{
    let s1 = synced(s, c);
    let refreshed = s.txs.map_values(|r: TxRecord| refresh(r, c));
    lemma_synced_records_refreshed(s, c);
    let again = s1.txs.map_values(|r: TxRecord| refresh(r, c));
    assert(again =~= s1.txs);
    lemma_add_new_covers(refreshed, c.txs@, c, s.next_seen as int);
    lemma_add_new_nothing_new(s1.txs, c.txs@, c, s1.next_seen as int);
    let s2 = synced(s1, c);
    assert(s2.txs =~= s1.txs);
    assert(s2 == s1);
}

proof fn lemma_outs_utxos_unspent(t: ChainTx, outs: Seq<crate::model::TxOut>, all: Seq<ChainTx>, scripts: Seq<ScriptInfo>)
    ensures
        forall|k: int| 0 <= k < outs_utxos(t, outs, all, scripts).len() ==>
            !spent(all, (#[trigger] outs_utxos(t, outs, all, scripts)[k]).outpoint),
    decreases outs.len(),
{
    if outs.len() > 0 {
        lemma_outs_utxos_unspent(t, outs.drop_last(), all, scripts);
    }
}

proof fn lemma_utxos_of_unspent(txs: Seq<ChainTx>, all: Seq<ChainTx>, scripts: Seq<ScriptInfo>)
    ensures
        forall|k: int| 0 <= k < utxos_of(txs, all, scripts).len() ==>
            !spent(all, (#[trigger] utxos_of(txs, all, scripts)[k]).outpoint),
    decreases txs.len(),
{
    if txs.len() > 0 {
        lemma_utxos_of_unspent(txs.drop_last(), all, scripts);
        let a = utxos_of(txs.drop_last(), all, scripts);
        let b = outs_utxos(txs.last(), txs.last().outputs@, all, scripts);
        lemma_outs_utxos_unspent(txs.last(), txs.last().outputs@, all, scripts);
        assert forall|k: int| 0 <= k < (a + b).len() implies !spent(all, (#[trigger] (a + b)[k]).outpoint) by {
            if k >= a.len() {
                assert((a + b)[k] == b[k - a.len()]);
            }
        }
    }
}

/// After a pass, no output that an input of the chain's answer spends is
/// counted as unspent, so none contributes to either balance.
pub proof fn lemma_spent_outputs_not_counted(s: WalletModel, c: ChainView, i: int, k: int)
    requires
        0 <= i < c.txs@.len(),
        0 <= k < c.txs@[i].inputs@.len(),
    ensures
        forall|u: int| 0 <= u < synced(s, c).utxos.len() ==>
            (#[trigger] synced(s, c).utxos[u]).outpoint != c.txs@[i].inputs@[k],
{
    lemma_utxos_of_unspent(c.txs@, c.txs@, c.scripts@);
    assert forall|u: int| 0 <= u < synced(s, c).utxos.len() implies
        (#[trigger] synced(s, c).utxos[u]).outpoint != c.txs@[i].inputs@[k] by {
        if synced(s, c).utxos[u].outpoint == c.txs@[i].inputs@[k] {
            assert(spent(c.txs@, c.txs@[i].inputs@[k]));
        }
    }
}

/// After a pass, a recorded transaction carries a height only where the
/// chain's answer reports it confirmed at that height; one the chain no
/// longer reports as confirmed is unconfirmed.
pub proof fn lemma_heights_follow_chain(s: WalletModel, c: ChainView)
    ensures
        forall|i: int| 0 <= i < synced(s, c).txs.len() ==> {
            let r = #[trigger] synced(s, c).txs[i];
            let reported = chain_tx(c.txs@, r.txid) matches Some(t) && t.height == r.height;
            (r.height is Some ==> r.confirmed && reported)
            && (r.confirmed ==> r.height is Some)
            && (!reported ==> !r.confirmed && r.height is None)
        },
{
    lemma_synced_records_refreshed(s, c);
}

} // verus!
