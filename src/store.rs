//! The stored form of a wallet's state and the opening of its namespace.

use crate::codec::{be, get_be, lemma_be_len, lemma_pow256_facts, lemma_unbe_be, pow256, put_be, unbe};
use crate::error::WalletError;
use crate::model::{Hash32, Keychain, OutPoint, TxRecord, Utxo, WalletModel, WalletState};
use crate::report::height_or_zero;
use vstd::prelude::*;

verus! {

/// Bytes of one stored transaction record.
pub const TX_RECORD_LEN: usize = 78;

/// Bytes of one stored unspent output.
pub const UTXO_RECORD_LEN: usize = 82;

/// The stored byte of a flag.
pub open spec fn flag(b: bool) -> u8 {
    if b { 1 } else { 0 }
}

/// The stored byte of a keychain.
pub open spec fn keychain_byte(k: Keychain) -> u8 {
    match k {
        Keychain::External => 0,
        Keychain::Internal => 1,
    }
}

/// The stored form of a transaction record.
pub open spec fn enc_tx(r: TxRecord) -> Seq<u8> {
    be(r.txid.hi as nat, 16) + be(r.txid.lo as nat, 16) + seq![flag(r.confirmed)] + seq![flag(r.height is Some)]
        + be(height_or_zero(r) as nat, 4) + be(r.first_seen as nat, 8) + be(r.received as nat, 16)
        + be(r.sent as nat, 16)
}

/// The transaction record stored in `s` (78 bytes), if the flags are valid.
pub open spec fn parse_tx(s: Seq<u8>) -> Option<TxRecord> {
    if s[32] > 1 || s[33] > 1 {
        None
    } else {
        Some(TxRecord {
            txid: Hash32 { hi: unbe(s.subrange(0, 16)) as u128, lo: unbe(s.subrange(16, 32)) as u128 },
            confirmed: s[32] == 1,
            height: if s[33] == 1 { Some(unbe(s.subrange(34, 38)) as u32) } else { None },
            first_seen: unbe(s.subrange(38, 46)) as u64,
            received: unbe(s.subrange(46, 62)) as u128,
            sent: unbe(s.subrange(62, 78)) as u128,
        })
    }
}

/// The stored form of an unspent output.
pub open spec fn enc_utxo(u: Utxo) -> Seq<u8> {
    be(u.outpoint.txid.hi as nat, 16) + be(u.outpoint.txid.lo as nat, 16) + be(u.outpoint.vout as nat, 4)
        + be(u.script.hi as nat, 16) + be(u.script.lo as nat, 16) + be(u.value as nat, 8)
        + seq![keychain_byte(u.keychain)] + be(u.index as nat, 4) + seq![flag(u.confirmed)]
}

/// The unspent output stored in `s` (82 bytes), if its flags are valid.
pub open spec fn parse_utxo(s: Seq<u8>) -> Option<Utxo> {
    if s[76] > 1 || s[81] > 1 {
        None
    } else {
        Some(Utxo {
            outpoint: OutPoint {
                txid: Hash32 { hi: unbe(s.subrange(0, 16)) as u128, lo: unbe(s.subrange(16, 32)) as u128 },
                vout: unbe(s.subrange(32, 36)) as u32,
            },
            script: Hash32 { hi: unbe(s.subrange(36, 52)) as u128, lo: unbe(s.subrange(52, 68)) as u128 },
            value: unbe(s.subrange(68, 76)) as u64,
            keychain: if s[76] == 0 { Keychain::External } else { Keychain::Internal },
            index: unbe(s.subrange(77, 81)) as u32,
            confirmed: s[81] == 1,
        })
    }
}

proof fn lemma_tx_round_trip(r: TxRecord)
    ensures
        enc_tx(r).len() == TX_RECORD_LEN,
        parse_tx(enc_tx(r)) == Some(r),
{
    lemma_pow256_facts();
    let a = be(r.txid.hi as nat, 16);
    let b = be(r.txid.lo as nat, 16);
    let h = be(height_or_zero(r) as nat, 4);
    let f = be(r.first_seen as nat, 8);
    let rc = be(r.received as nat, 16);
    let sn = be(r.sent as nat, 16);
    lemma_be_len(r.txid.hi as nat, 16);
    lemma_be_len(r.txid.lo as nat, 16);
    lemma_be_len(height_or_zero(r) as nat, 4);
    lemma_be_len(r.first_seen as nat, 8);
    lemma_be_len(r.received as nat, 16);
    lemma_be_len(r.sent as nat, 16);
    lemma_unbe_be(r.txid.hi as nat, 16);
    lemma_unbe_be(r.txid.lo as nat, 16);
    lemma_unbe_be(height_or_zero(r) as nat, 4);
    lemma_unbe_be(r.first_seen as nat, 8);
    lemma_unbe_be(r.received as nat, 16);
    lemma_unbe_be(r.sent as nat, 16);
    let s = enc_tx(r);
    assert(s.subrange(0, 16) =~= a);
    assert(s.subrange(16, 32) =~= b);
    assert(s[32] == flag(r.confirmed));
    assert(s[33] == flag(r.height is Some));
    assert(s.subrange(34, 38) =~= h);
    assert(s.subrange(38, 46) =~= f);
    assert(s.subrange(46, 62) =~= rc);
    assert(s.subrange(62, 78) =~= sn);
}

proof fn lemma_utxo_round_trip(u: Utxo)
    ensures
        enc_utxo(u).len() == UTXO_RECORD_LEN,
        parse_utxo(enc_utxo(u)) == Some(u),
{
    lemma_pow256_facts();
    lemma_be_len(u.outpoint.txid.hi as nat, 16);
    lemma_be_len(u.outpoint.txid.lo as nat, 16);
    lemma_be_len(u.outpoint.vout as nat, 4);
    lemma_be_len(u.script.hi as nat, 16);
    lemma_be_len(u.script.lo as nat, 16);
    lemma_be_len(u.value as nat, 8);
    lemma_be_len(u.index as nat, 4);
    lemma_unbe_be(u.outpoint.txid.hi as nat, 16);
    lemma_unbe_be(u.outpoint.txid.lo as nat, 16);
    lemma_unbe_be(u.outpoint.vout as nat, 4);
    lemma_unbe_be(u.script.hi as nat, 16);
    lemma_unbe_be(u.script.lo as nat, 16);
    lemma_unbe_be(u.value as nat, 8);
    lemma_unbe_be(u.index as nat, 4);
    let s = enc_utxo(u);
    assert(s.subrange(0, 16) =~= be(u.outpoint.txid.hi as nat, 16));
    assert(s.subrange(16, 32) =~= be(u.outpoint.txid.lo as nat, 16));
    assert(s.subrange(32, 36) =~= be(u.outpoint.vout as nat, 4));
    assert(s.subrange(36, 52) =~= be(u.script.hi as nat, 16));
    assert(s.subrange(52, 68) =~= be(u.script.lo as nat, 16));
    assert(s.subrange(68, 76) =~= be(u.value as nat, 8));
    assert(s[76] == keychain_byte(u.keychain));
    assert(s.subrange(77, 81) =~= be(u.index as nat, 4));
    assert(s[81] == flag(u.confirmed));
}

fn write_tx(out: &mut Vec<u8>, r: &TxRecord)
    ensures
        final(out)@ == old(out)@ + enc_tx(*r),
{
    put_be(out, r.txid.hi, 16);
    put_be(out, r.txid.lo, 16);
    out.push(if r.confirmed { 1u8 } else { 0u8 });
    let h: u32 = match r.height {
        Some(h) => {
            out.push(1u8);
            h
        },
        None => {
            out.push(0u8);
            0
        },
    };
    put_be(out, h as u128, 4);
    put_be(out, r.first_seen as u128, 8);
    put_be(out, r.received, 16);
    put_be(out, r.sent, 16);
    assert(final(out)@ =~= old(out)@ + enc_tx(*r));
}

fn read_tx(b: &Vec<u8>, pos: usize) -> (r: Option<TxRecord>)
    requires
        pos + TX_RECORD_LEN <= b@.len(),
    ensures
        r == parse_tx(b@.subrange(pos as int, pos + TX_RECORD_LEN)),
{
    let ghost s = b@.subrange(pos as int, pos + TX_RECORD_LEN);
    let _len = b.len();
    let c = b[pos + 32];
    let t = b[pos + 33];
    if c > 1 || t > 1 {
        return None;
    }
    let hi = get_be(b, pos, 16);
    let lo = get_be(b, pos + 16, 16);
    let h = get_be(b, pos + 34, 4);
    let f = get_be(b, pos + 38, 8);
    let rc = get_be(b, pos + 46, 16);
    let sn = get_be(b, pos + 62, 16);
    proof {
        assert(s.subrange(0, 16) =~= b@.subrange(pos as int, pos + 16));
        assert(s.subrange(16, 32) =~= b@.subrange(pos + 16, pos + 32));
        assert(s.subrange(34, 38) =~= b@.subrange(pos + 34, pos + 38));
        assert(s.subrange(38, 46) =~= b@.subrange(pos + 38, pos + 46));
        assert(s.subrange(46, 62) =~= b@.subrange(pos + 46, pos + 62));
        assert(s.subrange(62, 78) =~= b@.subrange(pos + 62, pos + 78));
        crate::codec::lemma_unbe_bound(b@.subrange(pos + 34, pos + 38));
        crate::codec::lemma_unbe_bound(b@.subrange(pos + 38, pos + 46));
        lemma_pow256_facts();
    }
    Some(TxRecord {
        txid: Hash32 { hi, lo },
        confirmed: c == 1,
        height: if t == 1 { Some(h as u32) } else { None },
        first_seen: f as u64,
        received: rc,
        sent: sn,
    })
}

fn write_utxo(out: &mut Vec<u8>, u: &Utxo)
    ensures
        final(out)@ == old(out)@ + enc_utxo(*u),
{
    put_be(out, u.outpoint.txid.hi, 16);
    put_be(out, u.outpoint.txid.lo, 16);
    put_be(out, u.outpoint.vout as u128, 4);
    put_be(out, u.script.hi, 16);
    put_be(out, u.script.lo, 16);
    put_be(out, u.value as u128, 8);
    out.push(match u.keychain {
        Keychain::External => 0u8,
        Keychain::Internal => 1u8,
    });
    put_be(out, u.index as u128, 4);
    out.push(if u.confirmed { 1u8 } else { 0u8 });
    assert(final(out)@ =~= old(out)@ + enc_utxo(*u));
}

fn read_utxo(b: &Vec<u8>, pos: usize) -> (r: Option<Utxo>)
    requires
        pos + UTXO_RECORD_LEN <= b@.len(),
    ensures
        r == parse_utxo(b@.subrange(pos as int, pos + UTXO_RECORD_LEN)),
{
    let ghost s = b@.subrange(pos as int, pos + UTXO_RECORD_LEN);
    let _len = b.len();
    let k = b[pos + 76];
    let c = b[pos + 81];
    if k > 1 || c > 1 {
        return None;
    }
    let thi = get_be(b, pos, 16);
    let tlo = get_be(b, pos + 16, 16);
    let vout = get_be(b, pos + 32, 4);
    let shi = get_be(b, pos + 36, 16);
    let slo = get_be(b, pos + 52, 16);
    let value = get_be(b, pos + 68, 8);
    let index = get_be(b, pos + 77, 4);
    proof {
        assert(s.subrange(0, 16) =~= b@.subrange(pos as int, pos + 16));
        assert(s.subrange(16, 32) =~= b@.subrange(pos + 16, pos + 32));
        assert(s.subrange(32, 36) =~= b@.subrange(pos + 32, pos + 36));
        assert(s.subrange(36, 52) =~= b@.subrange(pos + 36, pos + 52));
        assert(s.subrange(52, 68) =~= b@.subrange(pos + 52, pos + 68));
        assert(s.subrange(68, 76) =~= b@.subrange(pos + 68, pos + 76));
        assert(s.subrange(77, 81) =~= b@.subrange(pos + 77, pos + 81));
        crate::codec::lemma_unbe_bound(b@.subrange(pos + 32, pos + 36));
        crate::codec::lemma_unbe_bound(b@.subrange(pos + 68, pos + 76));
        crate::codec::lemma_unbe_bound(b@.subrange(pos + 77, pos + 81));
        lemma_pow256_facts();
    }
    Some(Utxo {
        outpoint: OutPoint { txid: Hash32 { hi: thi, lo: tlo }, vout: vout as u32 },
        script: Hash32 { hi: shi, lo: slo },
        value: value as u64,
        keychain: if k == 0 { Keychain::External } else { Keychain::Internal },
        index: index as u32,
        confirmed: c == 1,
    })
}

/// Bytes of the stored header: both derived indices, the first-seen counter
/// and the number of transaction records.
pub const HEADER_LEN: usize = 24;

/// The stored form of a sequence of transaction records, one after another.
pub open spec fn enc_txs(rs: Seq<TxRecord>) -> Seq<u8>
    decreases rs.len(),
{
    if rs.len() == 0 {
        Seq::empty()
    } else {
        enc_tx(rs[0]) + enc_txs(rs.skip(1))
    }
}

/// The stored form of a sequence of unspent outputs, one after another.
pub open spec fn enc_utxos(us: Seq<Utxo>) -> Seq<u8>
    decreases us.len(),
{
    if us.len() == 0 {
        Seq::empty()
    } else {
        enc_utxo(us[0]) + enc_utxos(us.skip(1))
    }
}

/// `n` transaction records read from the front of `s`, and what follows them.
pub open spec fn parse_txs(s: Seq<u8>, n: nat) -> Option<(Seq<TxRecord>, Seq<u8>)>
    decreases n,
{
    if n == 0 {
        Some((Seq::empty(), s))
    } else if s.len() < TX_RECORD_LEN {
        None
    } else {
        match parse_tx(s.take(TX_RECORD_LEN as int)) {
            None => None,
            Some(r) => match parse_txs(s.skip(TX_RECORD_LEN as int), (n - 1) as nat) {
                None => None,
                Some(p) => Some((seq![r] + p.0, p.1)),
            },
        }
    }
}

/// The unspent outputs that make up all of `s`.
pub open spec fn parse_utxos(s: Seq<u8>) -> Option<Seq<Utxo>>
    decreases s.len(),
{
    if s.len() == 0 {
        Some(Seq::empty())
    } else if s.len() < UTXO_RECORD_LEN {
        None
    } else {
        match parse_utxo(s.take(UTXO_RECORD_LEN as int)) {
            None => None,
            Some(u) => match parse_utxos(s.skip(UTXO_RECORD_LEN as int)) {
                None => None,
                Some(rest) => Some(seq![u] + rest),
            },
        }
    }
}

/// The stored form of a wallet's state.
pub open spec fn enc_state(m: WalletModel) -> Seq<u8> {
    be(m.external_index as nat, 4) + be(m.internal_index as nat, 4) + be(m.next_seen as nat, 8)
        + be(m.txs.len(), 8) + enc_txs(m.txs) + enc_utxos(m.utxos)
}

/// The wallet state stored in `s`, if `s` is a valid stored form.
pub open spec fn parse_state(s: Seq<u8>) -> Option<WalletModel> {
    if s.len() < HEADER_LEN {
        None
    } else {
        match parse_txs(s.skip(HEADER_LEN as int), unbe(s.subrange(16, 24))) {
            None => None,
            Some(p) => match parse_utxos(p.1) {
                None => None,
                Some(us) => Some(WalletModel {
                    external_index: unbe(s.subrange(0, 4)) as u32,
                    internal_index: unbe(s.subrange(4, 8)) as u32,
                    txs: p.0,
                    utxos: us,
                    next_seen: unbe(s.subrange(8, 16)) as u64,
                }),
            },
        }
    }
}

proof fn lemma_enc_txs_push(rs: Seq<TxRecord>, r: TxRecord)
    ensures
        enc_txs(rs.push(r)) == enc_txs(rs) + enc_tx(r),
    decreases rs.len(),
{
    if rs.len() == 0 {
        let p = rs.push(r);
        assert(p.skip(1) =~= Seq::<TxRecord>::empty());
        assert(p[0] == r);
        assert(enc_txs(p.skip(1)) == Seq::<u8>::empty());
        assert(enc_txs(p) == enc_tx(r) + enc_txs(p.skip(1)));
        assert(enc_txs(p) =~= enc_txs(rs) + enc_tx(r));
    } else {
        lemma_enc_txs_push(rs.skip(1), r);
        let p = rs.push(r);
        assert(p.skip(1) =~= rs.skip(1).push(r));
        assert(p[0] == rs[0]);
        assert(enc_txs(p) == enc_tx(rs[0]) + enc_txs(p.skip(1)));
        assert(enc_txs(rs) == enc_tx(rs[0]) + enc_txs(rs.skip(1)));
        assert(enc_txs(p) =~= enc_txs(rs) + enc_tx(r));
    }
}

proof fn lemma_enc_utxos_push(us: Seq<Utxo>, u: Utxo)
    ensures
        enc_utxos(us.push(u)) == enc_utxos(us) + enc_utxo(u),
    decreases us.len(),
{
    if us.len() == 0 {
        let p = us.push(u);
        assert(p.skip(1) =~= Seq::<Utxo>::empty());
        assert(p[0] == u);
        assert(enc_utxos(p.skip(1)) == Seq::<u8>::empty());
        assert(enc_utxos(p) == enc_utxo(u) + enc_utxos(p.skip(1)));
        assert(enc_utxos(p) =~= enc_utxos(us) + enc_utxo(u));
    } else {
        lemma_enc_utxos_push(us.skip(1), u);
        let p = us.push(u);
        assert(p.skip(1) =~= us.skip(1).push(u));
        assert(p[0] == us[0]);
        assert(enc_utxos(p) == enc_utxo(us[0]) + enc_utxos(p.skip(1)));
        assert(enc_utxos(us) == enc_utxo(us[0]) + enc_utxos(us.skip(1)));
        assert(enc_utxos(p) =~= enc_utxos(us) + enc_utxo(u));
    }
}

proof fn lemma_txs_round_trip(rs: Seq<TxRecord>, tail: Seq<u8>)
    ensures
        parse_txs(enc_txs(rs) + tail, rs.len()) == Some((rs, tail)),
    decreases rs.len(),
{
    if rs.len() > 0 {
        let s = enc_txs(rs) + tail;
        lemma_tx_round_trip(rs[0]);
        lemma_txs_round_trip(rs.skip(1), tail);
        assert(s.take(TX_RECORD_LEN as int) =~= enc_tx(rs[0]));
        assert(s.skip(TX_RECORD_LEN as int) =~= enc_txs(rs.skip(1)) + tail);
        assert(seq![rs[0]] + rs.skip(1) =~= rs);
    } else {
        assert(enc_txs(rs) + tail =~= tail);
    }
}

proof fn lemma_utxos_round_trip(us: Seq<Utxo>)
    ensures
        parse_utxos(enc_utxos(us)) == Some(us),
    decreases us.len(),
{
    if us.len() > 0 {
        let s = enc_utxos(us);
        lemma_utxo_round_trip(us[0]);
        lemma_utxos_round_trip(us.skip(1));
        assert(s.take(UTXO_RECORD_LEN as int) =~= enc_utxo(us[0]));
        assert(s.skip(UTXO_RECORD_LEN as int) =~= enc_utxos(us.skip(1)));
        assert(seq![us[0]] + us.skip(1) =~= us);
    } else {
        assert(us =~= Seq::<Utxo>::empty());
    }
}

/// Reading back what was stored gives the same state.
pub proof fn lemma_state_round_trip(m: WalletModel)
    requires
        m.txs.len() < pow256(8),
    ensures
        parse_state(enc_state(m)) == Some(m),
{
    lemma_pow256_facts();
    let s = enc_state(m);
    lemma_be_len(m.external_index as nat, 4);
    lemma_be_len(m.internal_index as nat, 4);
    lemma_be_len(m.next_seen as nat, 8);
    lemma_be_len(m.txs.len(), 8);
    lemma_unbe_be(m.external_index as nat, 4);
    lemma_unbe_be(m.internal_index as nat, 4);
    lemma_unbe_be(m.next_seen as nat, 8);
    lemma_unbe_be(m.txs.len(), 8);
    assert(s.subrange(0, 4) =~= be(m.external_index as nat, 4));
    assert(s.subrange(4, 8) =~= be(m.internal_index as nat, 4));
    assert(s.subrange(8, 16) =~= be(m.next_seen as nat, 8));
    assert(s.subrange(16, 24) =~= be(m.txs.len(), 8));
    assert(s.skip(HEADER_LEN as int) =~= enc_txs(m.txs) + enc_utxos(m.utxos));
    lemma_txs_round_trip(m.txs, enc_utxos(m.utxos));
    lemma_utxos_round_trip(m.utxos);
}

/// The stored form of a wallet's state, written as one value so that a
/// store can replace it in a single atomic write.
pub fn encode_state(state: &WalletState) -> (r: Vec<u8>)
    ensures
        r@ == enc_state(state@),
{
    let mut out: Vec<u8> = Vec::new();
    put_be(&mut out, state.external_index as u128, 4);
    put_be(&mut out, state.internal_index as u128, 4);
    put_be(&mut out, state.next_seen as u128, 8);
    put_be(&mut out, state.txs.len() as u128, 8);
    let ghost head = out@;
    let mut i: usize = 0;
    while i < state.txs.len()
        invariant
            i <= state.txs@.len(),
            out@ == head + enc_txs(state.txs@.take(i as int)),
        decreases state.txs@.len() - i,
    {
        proof {
            lemma_enc_txs_push(state.txs@.take(i as int), state.txs@[i as int]);
            assert(state.txs@.take(i as int + 1) =~= state.txs@.take(i as int).push(state.txs@[i as int]));
        }
        write_tx(&mut out, &state.txs[i]);
        i = i + 1;
    }
    assert(state.txs@.take(state.txs@.len() as int) =~= state.txs@);
    let ghost mid = out@;
    let mut j: usize = 0;
    while j < state.utxos.len()
        invariant
            j <= state.utxos@.len(),
            out@ == mid + enc_utxos(state.utxos@.take(j as int)),
        decreases state.utxos@.len() - j,
    {
        proof {
            lemma_enc_utxos_push(state.utxos@.take(j as int), state.utxos@[j as int]);
            assert(state.utxos@.take(j as int + 1) =~= state.utxos@.take(j as int).push(state.utxos@[j as int]));
        }
        write_utxo(&mut out, &state.utxos[j]);
        j = j + 1;
    }
    assert(state.utxos@.take(state.utxos@.len() as int) =~= state.utxos@);
    assert(out@ =~= enc_state(state@));
    out
}

fn decode_txs(b: &Vec<u8>, start: usize, n: u128) -> (r: Option<(Vec<TxRecord>, usize)>)
    requires
        start <= b@.len(),
    ensures
        r is None ==> parse_txs(b@.skip(start as int), n as nat) is None,
        r matches Some(p) ==> p.1 <= b@.len() && parse_txs(b@.skip(start as int), n as nat) == Some((p.0@, b@.skip(p.1 as int))),
{
    let len = b.len();
    let ghost total = parse_txs(b@.skip(start as int), n as nat);
    let mut txs: Vec<TxRecord> = Vec::new();
    let mut pos: usize = start;
    let mut i: u128 = 0;
    while i < n
        invariant
            len == b@.len(),
            pos <= len,
            i <= n,
            total == parse_txs(b@.skip(start as int), n as nat),
            total == match parse_txs(b@.skip(pos as int), (n - i) as nat) {
                None => None,
                Some(p) => Some((txs@ + p.0, p.1)),
            },
        decreases n - i,
    {
        let ghost rest = b@.skip(pos as int);
        if len - pos < TX_RECORD_LEN {
            assert(parse_txs(rest, (n - i) as nat) is None);
            return None;
        }
        proof {
            assert(rest.take(TX_RECORD_LEN as int) =~= b@.subrange(pos as int, pos + TX_RECORD_LEN));
            assert(rest.skip(TX_RECORD_LEN as int) =~= b@.skip(pos + TX_RECORD_LEN));
        }
        match read_tx(b, pos) {
            None => {
                assert(parse_txs(rest, (n - i) as nat) is None);
                return None;
            },
            Some(r) => {
                proof {
                    match parse_txs(b@.skip(pos + TX_RECORD_LEN), (n - i - 1) as nat) {
                        None => {},
                        Some(p) => {
                            assert(txs@.push(r) + p.0 =~= txs@ + (seq![r] + p.0));
                        },
                    }
                }
                txs.push(r);
                pos = pos + TX_RECORD_LEN;
                i = i + 1;
            },
        }
    }
    assert(txs@ + Seq::<TxRecord>::empty() =~= txs@);
    Some((txs, pos))
}

fn decode_utxos(b: &Vec<u8>, start: usize) -> (r: Option<Vec<Utxo>>)
    requires
        start <= b@.len(),
    ensures
        r is None ==> parse_utxos(b@.skip(start as int)) is None,
        r matches Some(v) ==> parse_utxos(b@.skip(start as int)) == Some(v@),
{
    let len = b.len();
    let ghost total = parse_utxos(b@.skip(start as int));
    let mut utxos: Vec<Utxo> = Vec::new();
    let mut pos: usize = start;
    while pos < len
        invariant
            len == b@.len(),
            pos <= len,
            total == parse_utxos(b@.skip(start as int)),
            total == match parse_utxos(b@.skip(pos as int)) {
                None => None,
                Some(rest) => Some(utxos@ + rest),
            },
        decreases len - pos,
    {
        let ghost rest = b@.skip(pos as int);
        if len - pos < UTXO_RECORD_LEN {
            assert(parse_utxos(rest) is None);
            return None;
        }
        proof {
            assert(rest.take(UTXO_RECORD_LEN as int) =~= b@.subrange(pos as int, pos + UTXO_RECORD_LEN));
            assert(rest.skip(UTXO_RECORD_LEN as int) =~= b@.skip(pos + UTXO_RECORD_LEN));
        }
        match read_utxo(b, pos) {
            None => {
                assert(parse_utxos(rest) is None);
                return None;
            },
            Some(u) => {
                proof {
                    match parse_utxos(b@.skip(pos + UTXO_RECORD_LEN)) {
                        None => {},
                        Some(more) => {
                            assert(utxos@.push(u) + more =~= utxos@ + (seq![u] + more));
                        },
                    }
                }
                utxos.push(u);
                pos = pos + UTXO_RECORD_LEN;
            },
        }
    }
    assert(b@.skip(pos as int) =~= Seq::<u8>::empty());
    assert(parse_utxos(b@.skip(pos as int)) == Some(Seq::<Utxo>::empty()));
    assert(utxos@ + Seq::<Utxo>::empty() =~= utxos@);
    Some(utxos)
}

/// Reads a stored wallet state. Fails with `StorageCorrupt` exactly when the
/// bytes are not a stored form.
pub fn decode_state(b: &Vec<u8>) -> (r: Result<WalletState, WalletError>)
    ensures
        parse_state(b@) is None ==> r == Err::<WalletState, WalletError>(WalletError::StorageCorrupt),
        parse_state(b@) matches Some(m) ==> r is Ok && r->Ok_0@ == m,
{
    let len = b.len();
    if len < HEADER_LEN {
        return Err(WalletError::StorageCorrupt);
    }
    let external_index = get_be(b, 0, 4);
    let internal_index = get_be(b, 4, 4);
    let next_seen = get_be(b, 8, 8);
    let n = get_be(b, 16, 8);
    proof {
        crate::codec::lemma_unbe_bound(b@.subrange(0, 4));
        crate::codec::lemma_unbe_bound(b@.subrange(4, 8));
        crate::codec::lemma_unbe_bound(b@.subrange(8, 16));
        lemma_pow256_facts();
    }
    let (txs, pos) = match decode_txs(b, HEADER_LEN, n) {
        None => {
            return Err(WalletError::StorageCorrupt);
        },
        Some(p) => p,
    };
    let utxos = match decode_utxos(b, pos) {
        None => {
            return Err(WalletError::StorageCorrupt);
        },
        Some(v) => v,
    };
    let state = WalletState {
        external_index: external_index as u32,
        internal_index: internal_index as u32,
        txs,
        utxos,
        next_seen: next_seen as u64,
    };
    Ok(state)
}

/// How opening a wallet's namespace went: its stored state was found, or the
/// namespace was empty and a fresh state was created.
#[derive(Debug)]
pub enum Opened {
    Existing(WalletState),
    Created(WalletState),
}

/// Opens a wallet from what its namespace holds (`None` when nothing is
/// stored yet). Fails with `StorageCorrupt` when the stored bytes are not a
/// stored form.
pub fn open_state(stored: Option<Vec<u8>>) -> (r: Result<Opened, WalletError>)
    ensures
        stored is None ==> (r matches Ok(Opened::Created(st)) && st@ == WalletState::new_model()),
        stored is Some && parse_state(stored->Some_0@) is None
            ==> r == Err::<Opened, WalletError>(WalletError::StorageCorrupt),
        stored is Some && parse_state(stored->Some_0@) is Some
            ==> (r matches Ok(Opened::Existing(st)) && Some(st@) == parse_state(stored->Some_0@)),
{
    match stored {
        None => Ok(Opened::Created(WalletState::new())),
        Some(b) => match decode_state(&b) {
            Ok(st) => Ok(Opened::Existing(st)),
            Err(e) => Err(e),
        },
    }
}

} // verus!
