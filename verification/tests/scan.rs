use utxo_scanner::keys::standard_address;
use utxo_scanner::scanner::{decode_utxo_key, ScanState};
use utxo_scanner::utils::{bin2hex, deobfuscate};
use utxo_scanner::utxo::{merged_line, AddressType, Utxo};

fn utxo_key(txid_reversed: &[u8], vout: u8) -> Vec<u8> {
    let mut key = vec![67u8];
    key.extend_from_slice(txid_reversed);
    key.push(vout);
    key
}

#[test]
fn decode_utxo_key_splits_txid_and_vout() {
    let txid_reversed: Vec<u8> = (1..=32).collect();
    let key = utxo_key(&txid_reversed, 7);
    let (txid, vout) = decode_utxo_key(&key).unwrap();
    let mut expected = txid_reversed.clone();
    expected.reverse();
    assert_eq!(txid, expected);
    assert_eq!(vout, 7);
}

#[test]
fn decode_utxo_key_rejects_short_or_truncated_keys() {
    assert!(decode_utxo_key(&vec![67u8; 10]).is_none());
    let txid_reversed: Vec<u8> = (1..=32).collect();
    let mut key = vec![67u8];
    key.extend_from_slice(&txid_reversed);
    key.push(0x80);
    assert!(decode_utxo_key(&key).is_none());
}

#[test]
fn scan_scenario_emits_one_decoded_record() {
    let mut state = ScanState::new();

    // The obfuscation-key record: everything after the value's first byte
    // becomes the key.
    let taken = state.process_entry(&vec![0x0eu8], &vec![0x0eu8, 0xaa], false);
    assert!(taken.is_none());

    // One unspent output: height 100, not coinbase, compressed amount 10,
    // script type 0, a 20-byte hash payload.
    let mut plain = vec![0x80u8, 0x48, 0x0a, 0x00];
    plain.extend_from_slice(&[0x11u8; 20]);
    let stored = deobfuscate(&vec![0xaau8], &plain);
    let txid_reversed: Vec<u8> = (1..=32).collect();
    let key = utxo_key(&txid_reversed, 0);

    let utxo = state.process_entry(&key, &stored, false).unwrap();

    let mut txid = txid_reversed.clone();
    txid.reverse();
    assert_eq!(utxo.txid, bin2hex(&txid));
    assert_eq!(
        utxo.txid,
        "201f1e1d1c1b1a191817161514131211100f0e0d0c0b0a090807060504030201"
    );
    assert_eq!(utxo.vout, 0);
    assert_eq!(utxo.coinbase, 0);
    assert_eq!(utxo.height, 100);
    assert_eq!(utxo.amount, 2_000_000_000);
    assert_eq!(utxo.address_type, AddressType::P2pkh);
    let expected_address = standard_address(&vec![0x11u8; 20], false, &false);
    assert_eq!(utxo.address, expected_address);
    assert_eq!(utxo.sigscript, "11".repeat(20));

    let expected_line = format!(
        "{},0,2000000000,{},100,0,{}\n",
        utxo.txid,
        expected_address,
        "11".repeat(20)
    );
    assert_eq!(utxo.get_csv_line(), expected_line);

    let stats_count = 1u64;
    assert_eq!(state.count, stats_count);
    assert_eq!(state.total_amount, 2_000_000_000);
}

#[test]
fn scan_scenario_skips_bad_public_key_and_goes_on() {
    let mut state = ScanState::new();
    let taken = state.process_entry(&vec![0x0eu8], &vec![0x0eu8, 0xaa], false);
    assert!(taken.is_none());

    // Script type 4 asks for public-key expansion; the sliced payload starts
    // one byte early, so it opens with the type code itself and is no curve
    // point: the record must be skipped.
    let mut bad_plain = vec![0x80u8, 0x48, 0x0a, 0x04];
    bad_plain.extend_from_slice(&[0x00u8; 32]);
    let bad_stored = deobfuscate(&vec![0xaau8], &bad_plain);
    let txid_reversed: Vec<u8> = (1..=32).collect();
    let bad_key = utxo_key(&txid_reversed, 0);
    assert!(state.process_entry(&bad_key, &bad_stored, false).is_none());
    assert_eq!(state.count, 0);
    assert_eq!(state.total_amount, 0);

    // A later well-formed record is still emitted.
    let mut good_plain = vec![0x80u8, 0x48, 0x02, 0x00];
    good_plain.extend_from_slice(&[0x22u8; 20]);
    let good_stored = deobfuscate(&vec![0xaau8], &good_plain);
    let good_key = utxo_key(&txid_reversed, 1);
    let utxo = state.process_entry(&good_key, &good_stored, false).unwrap();
    assert_eq!(utxo.vout, 1);
    assert_eq!(utxo.amount, 10);
    assert_eq!(state.count, 1);
    assert_eq!(state.total_amount, 10);
}

#[test]
fn scan_ignores_unknown_keys_and_tolerates_truncated_values() {
    let mut state = ScanState::new();
    assert!(state.process_entry(&vec![0x99u8, 0x01], &vec![0x01u8], false).is_none());
    assert!(state.process_entry(&Vec::new(), &vec![0x01u8], false).is_none());

    // A truncated varint field is a per-record skip, not a failure.
    let txid_reversed: Vec<u8> = (1..=32).collect();
    let key = utxo_key(&txid_reversed, 0);
    let truncated = vec![0x80u8, 0xff];
    assert!(state.process_entry(&key, &truncated, false).is_none());
    assert_eq!(state.count, 0);
}

#[test]
fn empty_obfuscation_key_record_clears_the_key() {
    let mut state = ScanState::new();
    let taken = state.process_entry(&vec![0x0eu8], &vec![0x0eu8], false);
    assert!(taken.is_none());

    // With an empty key the value is read as stored.
    let mut plain = vec![0x02u8, 0x02, 0x00];
    plain.extend_from_slice(&[0x33u8; 20]);
    let txid_reversed: Vec<u8> = (1..=32).collect();
    let key = utxo_key(&txid_reversed, 0);
    let utxo = state.process_entry(&key, &plain, false).unwrap();
    assert_eq!(utxo.height, 1);
    assert_eq!(utxo.coinbase, 0);
    assert_eq!(utxo.amount, 10);
}

#[test]
fn utxo_lines_follow_their_field_orders() {
    let utxo = Utxo::new(
        String::from("aabb"),
        3,
        1,
        700000,
        123456,
        AddressType::P2sh,
        String::from("3abc"),
        String::from("ccdd"),
    );
    assert_eq!(utxo.get_csv_line(), "aabb,3,123456,3abc,700000,1,ccdd\n");
    assert_eq!(utxo.get_rocksdb_line(), "aabb,3,123456,3abc,ccdd,700000,1");
}

#[test]
fn merged_line_appends_under_one_address() {
    let first = String::from("aa,0,5,addr,ff,100,0");
    assert_eq!(merged_line(&None, &first), first);
    let second = String::from("bb,1,7,addr,ee,101,0");
    let merged = merged_line(&Some(first.clone()), &second);
    assert_eq!(merged, "aa,0,5,addr,ff,100,0\nbb,1,7,addr,ee,101,0");
}
