use vstd::prelude::*;
use crate::utils::{
    vint_ok, vint_end, chunk_value, deob_seq, hex_of, amount_u64, sat_add,
    deobfuscate, read_chunk, bin2hex, convert_amount, sat_add_u64,
};
use crate::keys::{
    standard_address_bytes, base58_of, bech32_chars_of, pubkey_decompress_of, standard_address,
    bech32_address, decompress,
};
use crate::utxo::{AddressType, Utxo};

verus! {

/// First key byte of the record that carries the obfuscation key.
pub const OBFUSCATE_KEY_SENTINEL: u8 = 14;

/// First key byte of an unspent-output record.
pub const UTXO_SENTINEL: u8 = 67;

// ---------------------------------------------------------------------------
// Record keys
// ---------------------------------------------------------------------------

/// Whether a raw key has the unspent-output shape: the sentinel, a 32-byte
/// transaction id, and a complete varint output index.
pub open spec fn utxo_key_ok(k: Seq<u8>) -> bool {
    k.len() >= 34 && vint_ok(k, 33)
}

/// The transaction id carried by an unspent-output key, re-reversed into its
/// outward byte order.
pub open spec fn txid_of_key(k: Seq<u8>) -> Seq<u8> {
    Seq::new(32, |i: int| k[32 - i])
}

/// The output index carried by an unspent-output key.
pub open spec fn vout_of_key(k: Seq<u8>) -> u64 {
    chunk_value(k, 33)
}

/// Splits an unspent-output key into transaction id and output index, or
/// nothing when the key is too short or its output index is truncated.
pub fn decode_utxo_key(key: &Vec<u8>) -> (r: Option<(Vec<u8>, u64)>)
    ensures
        match r {
            Some(p) => {
                &&& utxo_key_ok(key@)
                &&& p.0@ == txid_of_key(key@)
                &&& p.1 == vout_of_key(key@)
            },
            None => !utxo_key_ok(key@),
        },
{
    if key.len() < 34 {
        return None;
    }
    let mut rev_txid: Vec<u8> = Vec::new();
    let mut i: usize = 0;
    while i < 32
        invariant
            0 <= i <= 32,
            key@.len() >= 34,
            rev_txid@.len() == i,
            forall|j: int| 0 <= j < i ==> rev_txid@[j] == key@[32 - j],
        decreases 32 - i,
    {
        rev_txid.push(key[32 - i]);
        i = i + 1;
    }
    proof {
        assert(rev_txid@ =~= txid_of_key(key@));
    }
    let start: usize = 33;
    match read_chunk(key, &start) {
        Some(c) => Some((rev_txid, c.0)),
        None => None,
    }
}

// ---------------------------------------------------------------------------
// Address derivation paths
// ---------------------------------------------------------------------------

/// Whether a script type and payload select the segwit path: the reserved
/// type code with a witness-version-0, 20-byte-program marker.
pub open spec fn is_bech32_script(script_type: u64, s: Seq<u8>) -> bool {
    script_type == 28 && s.len() >= 2 && s[0] == 0 && s[1] == 20
}

/// Which of the three derivation paths a script type and payload select.
pub open spec fn address_type_of(script_type: u64, s: Seq<u8>) -> AddressType {
    if is_bech32_script(script_type, s) {
        AddressType::Bech32
    } else if script_type == 1 {
        AddressType::P2sh
    } else {
        AddressType::P2pkh
    }
}

/// The derived address text for a script type, payload and network.
pub open spec fn address_chars_of(script_type: u64, s: Seq<u8>, testnet: bool) -> Seq<char> {
    if is_bech32_script(script_type, s) {
        bech32_chars_of(s, testnet)
    } else if script_type == 1 {
        base58_of(standard_address_bytes(s, true, testnet))
    } else {
        base58_of(standard_address_bytes(s, false, testnet))
    }
}

/// Law: address derivation is deterministic; equal script type, payload and
/// network always give the same path and the same address text.
pub proof fn lemma_address_derivation_deterministic(
    script_type1: u64,
    s1: Seq<u8>,
    testnet1: bool,
    script_type2: u64,
    s2: Seq<u8>,
    testnet2: bool,
)
    requires
        script_type1 == script_type2,
        s1 == s2,
        testnet1 == testnet2,
    ensures
        address_type_of(script_type1, s1) == address_type_of(script_type2, s2),
        address_chars_of(script_type1, s1, testnet1) == address_chars_of(
            script_type2,
            s2,
            testnet2,
        ),
{
}

/// Selects the derivation path for a payload and derives the address.
pub fn get_address(script_type: &u64, sigscript: &Vec<u8>, testnet: &bool) -> (r: (
    AddressType,
    String,
))
    ensures
        r.0 == address_type_of(*script_type, sigscript@),
        r.1@ == address_chars_of(*script_type, sigscript@, *testnet),
{
    if *script_type == 28 && sigscript.len() >= 2 && sigscript[0] == 0 && sigscript[1] == 20 {
        let address = bech32_address(sigscript, testnet);
        (AddressType::Bech32, address)
    } else if *script_type == 1 {
        let address = standard_address(sigscript, true, testnet);
        (AddressType::P2sh, address)
    } else {
        let address = standard_address(sigscript, false, testnet);
        (AddressType::P2pkh, address)
    }
}

// ---------------------------------------------------------------------------
// Record values
// ---------------------------------------------------------------------------

/// Whether a deobfuscated value carries its three complete varint fields.
pub open spec fn value_fields_ok(v: Seq<u8>) -> bool {
    &&& vint_ok(v, 0)
    &&& vint_ok(v, vint_end(v, 0))
    &&& vint_ok(v, vint_end(v, vint_end(v, 0)))
}

/// The first field: block height and coinbase flag packed together.
pub open spec fn height_coinbase_of(v: Seq<u8>) -> u64 {
    chunk_value(v, 0)
}

/// The second field: the compressed amount.
pub open spec fn compressed_amount_of(v: Seq<u8>) -> u64 {
    chunk_value(v, vint_end(v, 0))
}

/// The third field: the script type code.
pub open spec fn script_type_of(v: Seq<u8>) -> u64 {
    chunk_value(v, vint_end(v, vint_end(v, 0)))
}

/// Where the sigscript payload starts: just after the third field, one byte
/// earlier for the compact pay-to-hash encodings (types two through five).
pub open spec fn sigscript_offset(v: Seq<u8>) -> int {
    let o3 = vint_end(v, vint_end(v, vint_end(v, 0)));
    if 1 < script_type_of(v) < 6 {
        o3 - 1
    } else {
        o3
    }
}

/// The raw sigscript payload: everything from the sigscript offset on.
pub open spec fn raw_sigscript_of(v: Seq<u8>) -> Seq<u8> {
    v.subrange(sigscript_offset(v), v.len() as int)
}

/// Whether the script type says the payload is a compressed public key that
/// must be expanded before address derivation.
pub open spec fn needs_decompression(v: Seq<u8>) -> bool {
    script_type_of(v) == 4 || script_type_of(v) == 5
}

/// Whether a deobfuscated value yields an emitted record: all three fields
/// complete, and, where the payload is a compressed public key, one that
/// expands to a curve point.
pub open spec fn record_emitted(v: Seq<u8>) -> bool {
    &&& value_fields_ok(v)
    &&& (needs_decompression(v) ==> pubkey_decompress_of(raw_sigscript_of(v)) is Some)
}

/// The payload that address derivation sees: the expanded public key where
/// the script type asks for it, the raw payload otherwise.
pub open spec fn final_sigscript_of(v: Seq<u8>) -> Seq<u8> {
    if needs_decompression(v) {
        pubkey_decompress_of(raw_sigscript_of(v))->0
    } else {
        raw_sigscript_of(v)
    }
}

/// How one emitted record relates to its raw key and its deobfuscated
/// value: every field is the decode that the component specs describe.
pub open spec fn utxo_matches_record(u: Utxo, k: Seq<u8>, w: Seq<u8>, testnet: bool) -> bool {
    &&& u.txid@ == hex_of(txid_of_key(k))
    &&& u.vout == vout_of_key(k)
    &&& u.coinbase == height_coinbase_of(w) % 2
    &&& u.height == height_coinbase_of(w) / 2
    &&& u.amount == amount_u64(compressed_amount_of(w))
    &&& u.address_type == address_type_of(script_type_of(w), final_sigscript_of(w))
    &&& u.address@ == address_chars_of(script_type_of(w), final_sigscript_of(w), testnet)
    &&& u.sigscript@ == hex_of(final_sigscript_of(w))
}

// ---------------------------------------------------------------------------
// The record assembler
// ---------------------------------------------------------------------------

/// What one scan carries between records: the obfuscation key once seen, and
/// the running totals.
pub struct ScanState {
    pub obfuscate_key: Vec<u8>,
    pub count: u64,
    pub total_amount: u64,
}

/// Whether an entry's key marks the obfuscation-key record.
pub open spec fn is_obfuscate_record(k: Seq<u8>) -> bool {
    k.len() > 0 && k[0] == OBFUSCATE_KEY_SENTINEL
}

/// Whether an entry's key marks an unspent-output record.
pub open spec fn is_utxo_record(k: Seq<u8>) -> bool {
    k.len() > 0 && k[0] == UTXO_SENTINEL
}

impl ScanState {
    /// A scan that has seen nothing: empty obfuscation key, zero totals.
    pub fn new() -> (r: ScanState)
        ensures
            r.obfuscate_key@ == Seq::<u8>::empty(),
            r.count == 0,
            r.total_amount == 0,
    {
        ScanState { obfuscate_key: Vec::new(), count: 0, total_amount: 0 }
    }

    /// Consumes one raw entry from the source store.  An obfuscation-key
    /// record replaces the scan's key (everything after the value's first
    /// byte).  An unspent-output record is deobfuscated, decoded and
    /// returned, and the totals grow; a record whose key or fields are
    /// malformed, or whose compressed public key does not expand, is
    /// skipped.  Every other entry is ignored.
    pub fn process_entry(&mut self, key: &Vec<u8>, value: &Vec<u8>, testnet: bool) -> (r: Option<
        Utxo,
    >)
        ensures
            !is_obfuscate_record(key@) && !is_utxo_record(key@) ==> {
                &&& r is None
                &&& final(self).obfuscate_key@ == old(self).obfuscate_key@
                &&& final(self).count == old(self).count
                &&& final(self).total_amount == old(self).total_amount
            },
            is_obfuscate_record(key@) ==> {
                &&& r is None
                &&& final(self).obfuscate_key@ == (if value@.len() >= 1 {
                    value@.subrange(1, value@.len() as int)
                } else {
                    Seq::<u8>::empty()
                })
                &&& final(self).count == old(self).count
                &&& final(self).total_amount == old(self).total_amount
            },
            is_utxo_record(key@) ==> final(self).obfuscate_key@ == old(self).obfuscate_key@,
            is_utxo_record(key@) && utxo_key_ok(key@) && record_emitted(
                deob_seq(old(self).obfuscate_key@, value@),
            ) ==> {
                &&& r is Some
                &&& utxo_matches_record(
                    r->0,
                    key@,
                    deob_seq(old(self).obfuscate_key@, value@),
                    testnet,
                )
                &&& final(self).count == sat_add(old(self).count, 1)
                &&& final(self).total_amount == sat_add(old(self).total_amount, r->0.amount)
            },
            is_utxo_record(key@) && !(utxo_key_ok(key@) && record_emitted(
                deob_seq(old(self).obfuscate_key@, value@),
            )) ==> {
                &&& r is None
                &&& final(self).count == old(self).count
                &&& final(self).total_amount == old(self).total_amount
            },
    {
        if key.len() == 0 {
            return None;
        }
        let k0 = key[0];
        if k0 == OBFUSCATE_KEY_SENTINEL {
            let mut new_key: Vec<u8> = Vec::new();
            let mut i: usize = 1;
            while i < value.len()
                invariant
                    1 <= i <= value@.len() || (value@.len() < 1 && i == 1),
                    new_key@.len() == i - 1,
                    forall|j: int| 0 <= j < i - 1 ==> new_key@[j] == value@[j + 1],
                decreases value@.len() - i,
            {
                new_key.push(value[i]);
                i = i + 1;
            }
            proof {
                if value@.len() >= 1 {
                    assert(new_key@ =~= value@.subrange(1, value@.len() as int));
                } else {
                    assert(new_key@ =~= Seq::<u8>::empty());
                }
            }
            self.obfuscate_key = new_key;
            None
        } else if k0 == UTXO_SENTINEL {
            let w = deobfuscate(&self.obfuscate_key, value);
            let (txid, vout) = match decode_utxo_key(key) {
                Some(p) => p,
                None => {
                    return None;
                },
            };
            let start: usize = 0;
            let (first_chunk, offset1) = match read_chunk(&w, &start) {
                Some(c) => c,
                None => {
                    return None;
                },
            };
            let height = first_chunk / 2;
            let coinbase = first_chunk % 2;
            let (second_chunk, offset2) = match read_chunk(&w, &offset1) {
                Some(c) => c,
                None => {
                    return None;
                },
            };
            let amount = convert_amount(second_chunk);
            let (script_type, offset3) = match read_chunk(&w, &offset2) {
                Some(c) => c,
                None => {
                    return None;
                },
            };
            let offset = if script_type > 1 && script_type < 6 {
                offset3 - 1
            } else {
                offset3
            };
            let mut sigscript: Vec<u8> = Vec::new();
            let mut i: usize = offset;
            while i < w.len()
                invariant
                    offset <= i <= w@.len(),
                    sigscript@.len() == i - offset,
                    forall|j: int| 0 <= j < i - offset ==> sigscript@[j] == w@[offset + j],
                decreases w@.len() - i,
            {
                sigscript.push(w[i]);
                i = i + 1;
            }
            proof {
                assert(sigscript@ =~= raw_sigscript_of(w@));
            }
            let payload = if script_type == 4 || script_type == 5 {
                match decompress(&sigscript) {
                    Some(d) => d,
                    None => {
                        return None;
                    },
                }
            } else {
                sigscript
            };
            let (addr_type, address) = get_address(&script_type, &payload, &testnet);
            let txid_hex = bin2hex(&txid);
            let sigscript_hex = bin2hex(&payload);
            let utxo = Utxo::new(
                txid_hex,
                vout,
                coinbase,
                height,
                amount,
                addr_type,
                address,
                sigscript_hex,
            );
            self.count = sat_add_u64(self.count, 1);
            self.total_amount = sat_add_u64(self.total_amount, amount);
            Some(utxo)
        } else {
            None
        }
    }
}

} // verus!
