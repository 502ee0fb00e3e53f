use seed_wallet::{
    balance, derive_master_key, list_transactions, sync, wallet_id, wallet_name, Balance, ChainTx, ChainView,
    GapScan, Hash32, Keychain, MasterKey, Network, OutPoint, ScriptInfo, TxOut, TxRecord, WalletContext,
    WalletError, WalletState, DEFAULT_GAP,
};

fn h(n: u128) -> Hash32 {
    Hash32 { hi: 0, lo: n }
}

fn receive_script() -> ScriptInfo {
    ScriptInfo { script: h(1000), keychain: Keychain::External, index: 0 }
}

fn funding_tx(height: Option<u32>) -> ChainTx {
    ChainTx {
        txid: h(1),
        inputs: vec![OutPoint { txid: h(77), vout: 3 }],
        outputs: vec![TxOut { script: h(1000), value: 50_000 }, TxOut { script: h(5555), value: 1_000 }],
        height,
    }
}

fn spending_tx() -> ChainTx {
    ChainTx {
        txid: h(2),
        inputs: vec![OutPoint { txid: h(1), vout: 0 }],
        outputs: vec![TxOut { script: h(9999), value: 49_000 }],
        height: None,
    }
}

fn view(txs: Vec<ChainTx>) -> ChainView {
    ChainView { external_index: 21, internal_index: 20, scripts: vec![receive_script()], txs }
}

fn mnemonic() -> Vec<u8> {
    vec![0u8; 16]
}

#[test]
fn master_key_is_deterministic() {
    let a = derive_master_key(&mnemonic(), Network::Bitcoin).unwrap();
    let b = derive_master_key(&mnemonic(), Network::Bitcoin).unwrap();
    assert_eq!(a, b);
    assert_eq!(a.encoded.len(), 78);
    assert_eq!(&a.encoded[0..4], &[0x04, 0x88, 0xAD, 0xE4]);
    assert_eq!(a.encoded[4], 0);
}

#[test]
fn master_key_depends_on_network() {
    let main = derive_master_key(&mnemonic(), Network::Bitcoin).unwrap();
    let test = derive_master_key(&mnemonic(), Network::Testnet).unwrap();
    assert_eq!(&test.encoded[0..4], &[0x04, 0x35, 0x83, 0x94]);
    assert_eq!(test.network, Network::Testnet);
    assert_eq!(&main.encoded[4..], &test.encoded[4..]);
}

#[test]
fn master_key_differs_from_plain_bip39_seed() {
    let a = derive_master_key(&vec![1u8; 32], Network::Bitcoin).unwrap();
    let b = derive_master_key(&vec![1u8; 24], Network::Bitcoin).unwrap();
    assert_ne!(a.encoded, b.encoded);
}

#[test]
fn invalid_entropy_lengths_are_rejected() {
    for len in [0usize, 12, 15, 17, 33, 36] {
        assert_eq!(derive_master_key(&vec![7u8; len], Network::Bitcoin), Err(WalletError::InvalidMnemonic));
    }
    for len in [16usize, 20, 24, 28, 32] {
        assert!(derive_master_key(&vec![7u8; len], Network::Bitcoin).is_ok());
    }
}

#[test]
fn wallet_id_is_stable() {
    let a = derive_master_key(&mnemonic(), Network::Bitcoin).unwrap();
    let b = derive_master_key(&mnemonic(), Network::Bitcoin).unwrap();
    let id_a = wallet_id(&a).unwrap();
    assert_eq!(id_a, wallet_id(&b).unwrap());
    assert_eq!(id_a.len(), 16);
    assert_eq!(wallet_name(&a, Network::Bitcoin).unwrap(), id_a);
}

#[test]
fn wallet_ids_of_distinct_mnemonics_differ() {
    let entropies: Vec<Vec<u8>> = vec![vec![0u8; 16], vec![0xffu8; 16], vec![0x7fu8; 16], vec![0x80u8; 32], vec![1u8; 20]];
    let ids: Vec<String> = entropies
        .iter()
        .map(|e| wallet_id(&derive_master_key(e, Network::Bitcoin).unwrap()).unwrap())
        .collect();
    for i in 0..ids.len() {
        for j in (i + 1)..ids.len() {
            assert_ne!(ids[i], ids[j]);
        }
    }
}

#[test]
fn wallet_id_differs_between_networks() {
    let main = derive_master_key(&mnemonic(), Network::Bitcoin).unwrap();
    let test = derive_master_key(&mnemonic(), Network::Testnet).unwrap();
    assert_ne!(wallet_id(&main).unwrap(), wallet_id(&test).unwrap());
}

#[test]
fn wallet_name_of_malformed_key_fails() {
    let key = MasterKey { network: Network::Bitcoin, encoded: vec![1, 2, 3] };
    assert_eq!(wallet_name(&key, Network::Bitcoin), Err(WalletError::DescriptorConstructionFailed));
}

#[test]
fn gap_scan_stops_gap_after_last_activity() {
    let mut scan = GapScan::new(0, DEFAULT_GAP);
    let mut queried = 0u32;
    while !scan.is_done() {
        let used = scan.next <= 3;
        scan.record(used);
        queried += 1;
    }
    assert_eq!(scan.next, 3 + DEFAULT_GAP + 1);
    assert_eq!(queried, 24);
}

#[test]
fn gap_scan_without_activity_scans_gap_scripts() {
    let mut scan = GapScan::new(5, 20);
    while !scan.is_done() {
        scan.record(false);
    }
    assert_eq!(scan.next, 25);
}

#[test]
fn gap_scan_with_scattered_activity() {
    let mut scan = GapScan::new(0, 3);
    let used = [true, false, false, true, false, false, false, true];
    while !scan.is_done() {
        let u = used.get(scan.next as usize).copied().unwrap_or(false);
        scan.record(u);
    }
    assert_eq!(scan.next, 7);
}

#[test]
fn confirmed_payment_scenario() {
    let key = derive_master_key(&mnemonic(), Network::Bitcoin).unwrap();
    let (_, info) = seed_wallet::script_at(&key, Keychain::External, 0).unwrap();
    let chain = ChainView {
        external_index: 21,
        internal_index: 20,
        scripts: vec![info],
        txs: vec![ChainTx {
            txid: h(1),
            inputs: vec![OutPoint { txid: h(77), vout: 3 }],
            outputs: vec![TxOut { script: info.script, value: 50_000 }, TxOut { script: h(5555), value: 1_000 }],
            height: Some(800_000),
        }],
    };
    let state = sync(WalletState::new(), &chain).unwrap();
    assert_eq!(balance(&state), Balance { confirmed: 50_000, unconfirmed: 0 });
    let txs = list_transactions(&state).unwrap();
    assert_eq!(txs.len(), 1);
    assert_eq!(txs[0].txid, h(1));
    assert_eq!(txs[0].height, Some(800_000));
    assert!(txs[0].confirmed);
    assert_eq!(txs[0].received, 50_000);
    assert_eq!(txs[0].sent, 0);
    assert_eq!(state.external_index, 21);
    assert_eq!(state.internal_index, 20);
    assert_eq!(state.utxos.len(), 1);
    assert_eq!(state.utxos[0].keychain, Keychain::External);
    assert_eq!(state.utxos[0].index, 0);
    assert_eq!(state.utxos[0].outpoint, OutPoint { txid: h(1), vout: 0 });
}

#[test]
fn confirmed_payment_scenario_with_fixed_script() {
    let state = sync(WalletState::new(), &view(vec![funding_tx(Some(800_000))])).unwrap();
    assert_eq!(balance(&state), Balance { confirmed: 50_000, unconfirmed: 0 });
    let txs = list_transactions(&state).unwrap();
    assert_eq!(txs.len(), 1);
    assert_eq!(txs[0].height, Some(800_000));
}

#[test]
fn spend_scenario() {
    let first = sync(WalletState::new(), &view(vec![funding_tx(Some(800_000))])).unwrap();
    let second = sync(first, &view(vec![funding_tx(Some(800_000)), spending_tx()])).unwrap();
    let b = balance(&second);
    assert_eq!(b.confirmed, 0);
    assert_eq!(b.unconfirmed, 0);
    let txs = list_transactions(&second).unwrap();
    assert_eq!(txs.len(), 2);
    assert_eq!(txs[0].txid, h(1));
    assert_eq!(txs[1].txid, h(2));
    assert!(!txs[1].confirmed);
    assert_eq!(txs[1].height, None);
    assert_eq!(txs[1].received, 0);
    assert_eq!(txs[1].sent, 50_000);
    assert!(second.utxos.is_empty());
}

#[test]
fn reorg_scenario() {
    let first = sync(WalletState::new(), &view(vec![funding_tx(Some(800_000))])).unwrap();
    let moved = sync(first.clone(), &view(vec![funding_tx(None)])).unwrap();
    assert_eq!(balance(&moved), Balance { confirmed: 0, unconfirmed: 50_000 });
    let txs = list_transactions(&moved).unwrap();
    assert_eq!(txs.len(), 1);
    assert!(!txs[0].confirmed);
    assert_eq!(txs[0].height, None);

    let gone = sync(first, &view(vec![])).unwrap();
    assert_eq!(balance(&gone), Balance { confirmed: 0, unconfirmed: 0 });
    let txs = list_transactions(&gone).unwrap();
    assert_eq!(txs.len(), 1);
    assert_eq!(txs[0].height, None);
    assert!(!txs[0].confirmed);
    assert_eq!(txs[0].received, 50_000);
}

#[test]
fn second_pass_changes_nothing() {
    let chain = view(vec![funding_tx(Some(800_000)), spending_tx()]);
    let once = sync(WalletState::new(), &chain).unwrap();
    let twice = sync(once.clone(), &chain).unwrap();
    assert_eq!(once, twice);
}

#[test]
fn duplicate_transaction_ids_are_a_protocol_error() {
    let chain = view(vec![funding_tx(Some(1)), funding_tx(Some(2))]);
    assert_eq!(sync(WalletState::new(), &chain), Err(WalletError::ChainSourceProtocolError));
}

#[test]
fn derived_index_never_decreases() {
    let mut state = WalletState::new();
    state.external_index = 40;
    state.internal_index = 3;
    let next = sync(state, &view(vec![])).unwrap();
    assert_eq!(next.external_index, 40);
    assert_eq!(next.internal_index, 20);
}

#[test]
fn history_is_ordered() {
    let rec = |id: u128, confirmed: bool, height: Option<u32>, seen: u64| TxRecord {
        txid: h(id),
        confirmed,
        height,
        first_seen: seen,
        received: 0,
        sent: 0,
    };
    let mut state = WalletState::new();
    state.txs = vec![
        rec(1, false, None, 5),
        rec(2, true, Some(900), 1),
        rec(3, false, None, 2),
        rec(4, true, Some(100), 4),
        rec(5, true, Some(900), 0),
    ];
    let ids: Vec<u128> = list_transactions(&state).unwrap().iter().map(|r| r.txid.lo).collect();
    assert_eq!(ids, vec![4, 5, 2, 3, 1]);
    assert_eq!(
        list_transactions(&state).unwrap(),
        list_transactions(&state).unwrap()
    );
}

#[test]
fn confirmed_record_without_height_is_inconsistent() {
    let mut state = WalletState::new();
    state.txs = vec![TxRecord { txid: h(1), confirmed: true, height: None, first_seen: 0, received: 0, sent: 0 }];
    assert_eq!(list_transactions(&state), Err(WalletError::InconsistentState));
}

#[test]
fn balance_sums_by_status() {
    let chain = ChainView {
        external_index: 2,
        internal_index: 1,
        scripts: vec![
            receive_script(),
            ScriptInfo { script: h(2000), keychain: Keychain::Internal, index: 0 },
        ],
        txs: vec![
            funding_tx(Some(10)),
            ChainTx {
                txid: h(3),
                inputs: vec![],
                outputs: vec![TxOut { script: h(2000), value: 7 }, TxOut { script: h(1000), value: 8 }],
                height: None,
            },
        ],
    };
    let state = sync(WalletState::new(), &chain).unwrap();
    assert_eq!(balance(&state), Balance { confirmed: 50_000, unconfirmed: 15 });
    assert_eq!(state.next_seen, 2);
    assert_eq!(state.utxos[1].keychain, Keychain::Internal);
}

#[test]
fn passes_do_not_interleave() {
    let mut ctx = WalletContext::open(WalletState::new());
    assert_eq!(ctx.begin_sync(), Ok(()));
    assert_eq!(ctx.begin_sync(), Err(WalletError::SyncInProgress));
    assert_eq!(ctx.commit(&view(vec![funding_tx(Some(800_000))])), Ok(()));
    assert_eq!(balance(&ctx.state).confirmed, 50_000);
    assert_eq!(ctx.begin_sync(), Ok(()));
    assert_eq!(ctx.cancel(), WalletError::SyncCancelled);
    assert_eq!(balance(&ctx.state).confirmed, 50_000);
    assert_eq!(ctx.begin_sync(), Ok(()));
    let bad = view(vec![funding_tx(Some(1)), funding_tx(None)]);
    assert_eq!(ctx.commit(&bad), Err(WalletError::ChainSourceProtocolError));
    assert_eq!(list_transactions(&ctx.state).unwrap().len(), 1);
    assert!(!ctx.syncing);
}

#[test]
fn script_id_is_sha256() {
    let id = seed_wallet::script_id(&vec![]);
    assert_eq!(id, Hash32 { hi: 0xe3b0c44298fc1c149afbf4c8996fb924, lo: 0x27ae41e4649b934ca495991b7852b855 });
}

#[test]
fn scripts_are_p2wpkh_and_keychains_do_not_collide() {
    let key = derive_master_key(&mnemonic(), Network::Bitcoin).unwrap();
    let (ext, ext_info) = seed_wallet::script_at(&key, Keychain::External, 0).unwrap();
    let (int, int_info) = seed_wallet::script_at(&key, Keychain::Internal, 0).unwrap();
    let (ext1, _) = seed_wallet::script_at(&key, Keychain::External, 1).unwrap();
    assert_eq!(ext.len(), 22);
    assert_eq!(&ext[0..2], &[0x00, 0x14]);
    assert_ne!(ext, int);
    assert_ne!(ext, ext1);
    assert_eq!(ext_info.script, seed_wallet::script_id(&ext));
    assert_eq!(ext_info.keychain, Keychain::External);
    assert_eq!(int_info.keychain, Keychain::Internal);
    assert_eq!(int_info.index, 0);
    let again = seed_wallet::script_at(&key, Keychain::External, 0).unwrap();
    assert_eq!(again.0, ext);
}

#[test]
fn history_ids_are_merged() {
    let mut ids = Vec::new();
    seed_wallet::note_txid(&mut ids, h(1), Some(5));
    seed_wallet::note_txid(&mut ids, h(2), None);
    seed_wallet::note_txid(&mut ids, h(1), None);
    assert_eq!(ids, vec![(h(1), Some(5)), (h(2), None)]);
}

#[test]
fn stored_state_round_trips() {
    let chain = view(vec![funding_tx(Some(800_000)), spending_tx()]);
    let state = sync(WalletState::new(), &chain).unwrap();
    let bytes = seed_wallet::encode_state(&state);
    assert_eq!(bytes.len(), 24 + 2 * 78);
    assert_eq!(seed_wallet::decode_state(&bytes), Ok(state));
    let first = sync(WalletState::new(), &view(vec![funding_tx(Some(800_000))])).unwrap();
    let bytes = seed_wallet::encode_state(&first);
    assert_eq!(bytes.len(), 24 + 78 + 82);
    assert_eq!(seed_wallet::decode_state(&bytes), Ok(first));
}

#[test]
fn stored_header_layout() {
    let mut state = WalletState::new();
    assert_eq!(seed_wallet::encode_state(&state), vec![0u8; 24]);
    state.external_index = 0x0102_0304;
    state.internal_index = 5;
    state.next_seen = 0x0a0b;
    let bytes = seed_wallet::encode_state(&state);
    assert_eq!(&bytes[0..4], &[1, 2, 3, 4]);
    assert_eq!(&bytes[4..8], &[0, 0, 0, 5]);
    assert_eq!(&bytes[8..16], &[0, 0, 0, 0, 0, 0, 0x0a, 0x0b]);
    assert_eq!(seed_wallet::decode_state(&bytes), Ok(state));
}

#[test]
fn corrupt_stored_state_is_reported() {
    assert_eq!(seed_wallet::decode_state(&vec![0u8; 23]), Err(WalletError::StorageCorrupt));
    let state = sync(WalletState::new(), &view(vec![funding_tx(Some(800_000))])).unwrap();
    let good = seed_wallet::encode_state(&state);
    let mut bad_flag = good.clone();
    bad_flag[24 + 32] = 2;
    assert_eq!(seed_wallet::decode_state(&bad_flag), Err(WalletError::StorageCorrupt));
    let mut trailing = good.clone();
    trailing.push(0);
    assert_eq!(seed_wallet::decode_state(&trailing), Err(WalletError::StorageCorrupt));
    let mut too_many = good.clone();
    too_many[23] = 5;
    assert_eq!(seed_wallet::decode_state(&too_many), Err(WalletError::StorageCorrupt));
    let truncated = good[..good.len() - 1].to_vec();
    assert_eq!(seed_wallet::decode_state(&truncated), Err(WalletError::StorageCorrupt));
}

#[test]
fn reorg_revert_survives_storage() {
    let first = sync(WalletState::new(), &view(vec![funding_tx(Some(800_000))])).unwrap();
    let stored = seed_wallet::decode_state(&seed_wallet::encode_state(&first)).unwrap();
    let after = sync(stored, &view(vec![])).unwrap();
    let txs = list_transactions(&after).unwrap();
    assert_eq!(txs.len(), 1);
    assert_eq!(txs[0].height, None);
    assert_eq!(txs[0].first_seen, 0);
}

#[test]
fn opening_reports_created_or_existing() {
    match seed_wallet::open_state(None) {
        Ok(seed_wallet::Opened::Created(state)) => assert_eq!(state, WalletState::new()),
        other => panic!("unexpected {other:?}"),
    }
    let state = sync(WalletState::new(), &view(vec![funding_tx(Some(800_000))])).unwrap();
    match seed_wallet::open_state(Some(seed_wallet::encode_state(&state))) {
        Ok(seed_wallet::Opened::Existing(found)) => assert_eq!(found, state),
        other => panic!("unexpected {other:?}"),
    }
    assert!(matches!(seed_wallet::open_state(Some(vec![1, 2, 3])), Err(WalletError::StorageCorrupt)));
}
