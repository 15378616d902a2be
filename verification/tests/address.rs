use crypto::digest::Digest;
use crypto::sha2::Sha256;
use rust_base58::FromBase58;
use utxo_scanner::keys::{bech32_address, decompress, double_sha256, standard_address};
use utxo_scanner::scanner::get_address;
use utxo_scanner::utxo::AddressType;

fn hx(s: &str) -> Vec<u8> {
    let b = s.as_bytes();
    let mut out = Vec::new();
    let mut i: usize = 0;
    while i < b.len() {
        let hi = (b[i] as char).to_digit(16).unwrap() as u8;
        let lo = (b[i + 1] as char).to_digit(16).unwrap() as u8;
        out.push(hi * 16 + lo);
        i += 2;
    }
    out
}

#[test]
fn p2pkh_of_zero_hash_is_the_known_burn_address() {
    let payload = vec![0u8; 20];
    let address = standard_address(&payload, false, &false);
    assert_eq!(address, "1111111111111111111114oLvT2");
}

#[test]
fn standard_address_is_deterministic() {
    let payload = hx("62e907b15cbf27d5425399ebf6f0fb50ebb88f18");
    let a1 = standard_address(&payload, false, &false);
    let a2 = standard_address(&payload, false, &false);
    assert_eq!(a1, a2);
    let m1 = standard_address(&payload, true, &true);
    let m2 = standard_address(&payload, true, &true);
    assert_eq!(m1, m2);
}

#[test]
fn p2pkh_and_p2sh_differ_only_in_version_byte() {
    let payload = hx("62e907b15cbf27d5425399ebf6f0fb50ebb88f18");
    let plain = standard_address(&payload, false, &false);
    let multisig = standard_address(&payload, true, &false);
    assert_ne!(plain, multisig);
    let plain_bytes = plain.as_str().from_base58().unwrap();
    let multisig_bytes = multisig.as_str().from_base58().unwrap();
    assert_eq!(plain_bytes[0], 0x00);
    assert_eq!(multisig_bytes[0], 0x05);
    assert_eq!(plain_bytes[1..21], multisig_bytes[1..21]);
    assert_eq!(plain_bytes[1..21], payload[..]);
}

#[test]
fn base58_checksum_is_first_four_bytes_of_double_digest() {
    let payloads = vec![
        vec![0u8; 20],
        hx("62e907b15cbf27d5425399ebf6f0fb50ebb88f18"),
        hx("010203"),
    ];
    for payload in payloads {
        for multisig in [false, true] {
            for testnet in [false, true] {
                let address = standard_address(&payload, multisig, &testnet);
                let decoded = address.as_str().from_base58().unwrap();
                let n = decoded.len();
                let body = decoded[..n - 4].to_vec();
                let mut hasher = Sha256::new();
                let mut hash = vec![0u8; 32];
                hasher.input(&body);
                hasher.result(&mut hash);
                hasher.reset();
                hasher.input(&hash.clone());
                hasher.result(&mut hash);
                assert_eq!(decoded[n - 4..], hash[..4]);
            }
        }
    }
}

#[test]
fn double_sha256_matches_two_rounds_of_the_digest() {
    let bytes = vec![1u8, 2, 3];
    let out = double_sha256(&bytes);
    let mut hasher = Sha256::new();
    let mut hash = vec![0u8; 32];
    hasher.input(&bytes);
    hasher.result(&mut hash);
    hasher.reset();
    hasher.input(&hash.clone());
    hasher.result(&mut hash);
    assert_eq!(out, hash);
}

#[test]
fn decompress_expands_a_known_public_key() {
    let compressed = hx("0279be667ef9dcbbac55a06295ce870b07029bfcdb2dce28d959f2815b16f81798");
    let expanded = decompress(&compressed).unwrap();
    let expected = hx(
        "0479be667ef9dcbbac55a06295ce870b07029bfcdb2dce28d959f2815b16f81798483ada7726a3c4655da4fbfc0e1108a8fd17b448a68554199c47d08ffb10d4b8",
    );
    assert_eq!(expanded, expected);
}

#[test]
fn decompress_rejects_bytes_off_the_curve() {
    let bad = vec![0x05u8; 33];
    assert!(decompress(&bad).is_none());
    let empty: Vec<u8> = Vec::new();
    assert!(decompress(&empty).is_none());
}

#[test]
fn decompress_rejects_lengths_other_than_key_sizes() {
    assert!(decompress(&vec![0x02u8; 32]).is_none());
    assert!(decompress(&vec![0x02u8; 34]).is_none());
    assert!(decompress(&vec![0x04u8; 64]).is_none());
}

#[test]
fn decompress_output_carries_the_uncompressed_marker() {
    let compressed = hx("0279be667ef9dcbbac55a06295ce870b07029bfcdb2dce28d959f2815b16f81798");
    let expanded = decompress(&compressed).unwrap();
    assert_eq!(expanded.len(), 65);
    assert_eq!(expanded[0], 0x04);
}

#[test]
fn bech32_address_of_known_witness_program() {
    let script = hx("0014751e76e8199196d454941c45d1b3a323f1433bd6");
    let address = bech32_address(&script, &false);
    assert_eq!(address, "bc1qw508d6qejxtdg4y5r3zarvary0c5xw7kv8f3t4");
}

#[test]
fn bech32_address_of_malformed_program_is_empty() {
    let script = vec![0x00u8, 0x14, 0x01];
    assert_eq!(bech32_address(&script, &false), "");
}

#[test]
fn bech32_testnet_address_of_well_formed_program_is_nonempty() {
    let script = hx("0014751e76e8199196d454941c45d1b3a323f1433bd6");
    let address = bech32_address(&script, &true);
    assert!(!address.is_empty());
    assert!(address.starts_with("tb1"));
}

#[test]
fn get_address_selects_the_three_paths() {
    let program = hx("0014751e76e8199196d454941c45d1b3a323f1433bd6");
    let (kind, address) = get_address(&28, &program, &false);
    assert_eq!(kind, AddressType::Bech32);
    assert_eq!(address, "bc1qw508d6qejxtdg4y5r3zarvary0c5xw7kv8f3t4");

    let hash = vec![0u8; 20];
    let (kind, address) = get_address(&1, &hash, &false);
    assert_eq!(kind, AddressType::P2sh);
    assert_eq!(address, standard_address(&hash, true, &false));

    let (kind, address) = get_address(&0, &hash, &false);
    assert_eq!(kind, AddressType::P2pkh);
    assert_eq!(address, "1111111111111111111114oLvT2");

    let short = vec![0u8];
    let (kind, _) = get_address(&28, &short, &false);
    assert_eq!(kind, AddressType::P2pkh);
}
