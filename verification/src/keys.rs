use vstd::prelude::*;
use crypto::digest::Digest;
use crypto::sha2::Sha256;
use rust_base58::ToBase58;
use secp256k1::PublicKey;
use bitcoin_bech32::WitnessProgram;
use bitcoin_bech32::constants::Network;

verus! {

/// The 256-bit digest of a byte string, as crypto's Sha256 computes it.
pub uninterp spec fn sha256_of(s: Seq<u8>) -> Seq<u8>;

/// The base-58 rendering of a byte string over the standard 58-character
/// alphabet, as rust_base58 computes it.
pub uninterp spec fn base58_of(s: Seq<u8>) -> Seq<char>;

/// What expanding a serialized public key returns: the 65-byte uncompressed
/// form when the bytes encode a curve point, nothing otherwise, as
/// secp256k1 decides it.
pub uninterp spec fn pubkey_decompress_of(s: Seq<u8>) -> Option<Seq<u8>>;

/// What deriving a segwit address from a script returns: the checksummed
/// address text when the script is a well-formed witness program for the
/// chosen network, nothing otherwise, as bitcoin_bech32 decides it.
pub uninterp spec fn bech32_addr_of(s: Seq<u8>, testnet: bool) -> Option<Seq<char>>;

/// Relies on crypto's Sha256 through the Digest trait (`input`, `result`):
/// a 32-byte digest that depends on the input bytes alone.
#[verifier::external_body]
fn sha256(bytes: &Vec<u8>) -> (r: Vec<u8>)
    ensures
        r@ == sha256_of(bytes@),
        r@.len() == 32,
{
    let mut hasher = Sha256::new();
    let mut hash = vec![0u8; 32];
    hasher.input(bytes);
    hasher.result(&mut hash);
    hash
}

/// Relies on rust_base58's `ToBase58` for byte slices: the base-58 text of
/// the bytes over the standard alphabet, a function of the bytes alone.
#[verifier::external_body]
fn to_base58(bytes: &Vec<u8>) -> (r: String)
    ensures
        r@ == base58_of(bytes@),
{
    bytes.as_slice().to_base58()
}

/// Relies on secp256k1's `PublicKey::from_slice` and
/// `serialize_uncompressed`: only 33- or 65-byte inputs parse, they parse
/// iff they encode a curve point, and the uncompressed serialization is 65
/// bytes beginning with the uncompressed-form marker; all of it depends on
/// the bytes alone.
#[verifier::external_body]
pub fn decompress(public_key_bytes: &Vec<u8>) -> (r: Option<Vec<u8>>)
    ensures
        match r {
            Some(v) => {
                &&& pubkey_decompress_of(public_key_bytes@) == Some(v@)
                &&& v@.len() == 65
                &&& v@[0] == 4
            },
            None => pubkey_decompress_of(public_key_bytes@) is None,
        },
        public_key_bytes@.len() != 33 && public_key_bytes@.len() != 65 ==> r is None,
{
    match PublicKey::from_slice(public_key_bytes) {
        Ok(key) => Some(key.serialize_uncompressed().to_vec()),
        Err(_) => None,
    }
}

/// The scripts on which the segwit encoder returns instead of aborting: a
/// script too short or with an inconsistent length byte is rejected with an
/// error before the version byte is read, and otherwise the version byte
/// (less its opcode offset when above it) must fit the five-bit range.
pub open spec fn bech32_input_ok(s: Seq<u8>) -> bool {
    ||| s.len() < 4
    ||| s.len() != 2 + s[1]
    ||| s[0] <= 0x1f
    ||| (0x51 <= s[0] && s[0] <= 0x6f)
}

/// Relies on bitcoin_bech32's `WitnessProgram::from_scriptpubkey` and
/// `to_address`: the script parses iff it is a well-formed witness program
/// — in particular a 22-byte script carrying the witness-version-0,
/// 20-byte-program marker always does, into a nonempty address — and the
/// address text depends on the script bytes and the network alone.  The
/// call aborts on a version byte outside the five-bit range, so those
/// scripts are excluded.
#[verifier::external_body]
fn bech32_encode(sigscript: &Vec<u8>, testnet: bool) -> (r: Option<String>)
    requires
        bech32_input_ok(sigscript@),
    ensures
        match r {
            Some(a) => bech32_addr_of(sigscript@, testnet) == Some(a@),
            None => bech32_addr_of(sigscript@, testnet) is None,
        },
        (sigscript@.len() == 22 && sigscript@[0] == 0 && sigscript@[1] == 20) ==> (r is Some
            && r->0@.len() > 0),
{
    let network = if !testnet {
        Network::Bitcoin
    } else {
        Network::Testnet
    };
    match WitnessProgram::from_scriptpubkey(sigscript, network) {
        Ok(w) => Some(w.to_address()),
        Err(_) => None,
    }
}

/// The one-byte network and kind marker that heads a base-58 address.
pub open spec fn version_byte(is_multisig: bool, testnet: bool) -> u8 {
    if is_multisig && testnet {
        0xc4
    } else if is_multisig {
        0x05
    } else if testnet {
        0x6f
    } else {
        0x00
    }
}

/// The bytes whose double digest yields the checksum: version byte, then
/// payload.
pub open spec fn standard_address_payload(sigscript: Seq<u8>, is_multisig: bool, testnet: bool) -> Seq<
    u8,
> {
    seq![version_byte(is_multisig, testnet)] + sigscript
}

/// The full byte string that is base-58 encoded: version byte, payload, and
/// the first four bytes of the double digest as checksum.
pub open spec fn standard_address_bytes(sigscript: Seq<u8>, is_multisig: bool, testnet: bool) -> Seq<
    u8,
> {
    let p = standard_address_payload(sigscript, is_multisig, testnet);
    p + sha256_of(sha256_of(p)).take(4)
}

/// The segwit address for a script, or empty text when the script is not a
/// well-formed witness program.
pub open spec fn bech32_chars_of(s: Seq<u8>, testnet: bool) -> Seq<char> {
    match bech32_addr_of(s, testnet) {
        Some(a) => a,
        None => Seq::empty(),
    }
}

/// Two rounds of Sha256 over the same bytes, the checksum routine shared by
/// every base-58 address path.
pub fn double_sha256(bytes: &Vec<u8>) -> (r: Vec<u8>)
    ensures
        r@ == sha256_of(sha256_of(bytes@)),
        r@.len() == 32,
{
    let first = sha256(bytes);
    sha256(&first)
}

/// Derives a base-58 address: version byte, payload, and a four-byte
/// double-digest checksum, rendered in base 58.
pub fn standard_address(sigscript: &Vec<u8>, is_multisig: bool, testnet: &bool) -> (r: String)
    ensures
        r@ == base58_of(standard_address_bytes(sigscript@, is_multisig, *testnet)),
{
    let mut address: Vec<u8> = Vec::new();
    if is_multisig && *testnet {
        address.push(0xc4);
    } else if is_multisig && !*testnet {
        address.push(0x05);
    } else if *testnet && !is_multisig {
        address.push(0x6f);
    } else {
        address.push(0x00);
    }
    let mut i: usize = 0;
    while i < sigscript.len()
        invariant
            0 <= i <= sigscript@.len(),
            address@.len() == 1 + i,
            address@[0] == version_byte(is_multisig, *testnet),
            forall|j: int| 0 <= j < i ==> address@[j + 1] == sigscript@[j],
        decreases sigscript@.len() - i,
    {
        address.push(sigscript[i]);
        i = i + 1;
    }
    proof {
        assert(address@ =~= standard_address_payload(sigscript@, is_multisig, *testnet));
    }
    let checksum = double_sha256(&address);
    let ghost payload = address@;
    let mut k: usize = 0;
    while k < 4
        invariant
            0 <= k <= 4,
            checksum@ == sha256_of(sha256_of(payload)),
            checksum@.len() == 32,
            address@.len() == payload.len() + k,
            address@.subrange(0, payload.len() as int) == payload,
            forall|j: int| 0 <= j < k ==> address@[payload.len() + j] == checksum@[j],
        decreases 4 - k,
    {
        let ghost before = address@;
        address.push(checksum[k]);
        proof {
            assert(address@.subrange(0, payload.len() as int) =~= before.subrange(
                0,
                payload.len() as int,
            ));
        }
        k = k + 1;
    }
    proof {
        assert(address@ =~= standard_address_bytes(sigscript@, is_multisig, *testnet));
    }
    to_base58(&address)
}

/// Derives a segwit address for the script, or empty text when the script
/// is not a well-formed witness program.  A witness-version-0 script with a
/// 20-byte program always yields a nonempty address.
pub fn bech32_address(sigscript: &Vec<u8>, testnet: &bool) -> (r: String)
    requires
        bech32_input_ok(sigscript@),
    ensures
        r@ == bech32_chars_of(sigscript@, *testnet),
        (sigscript@.len() == 22 && sigscript@[0] == 0 && sigscript@[1] == 20) ==> r@.len() > 0,
{
    match bech32_encode(sigscript, *testnet) {
        Some(address) => address,
        None => String::new(),
    }
}

/// Law: the four bytes that end the encoded byte string of a base-58
/// address are the first four bytes of the double digest of everything
/// before them.  The digest-length bound holds of every digest the checksum
/// routine returns.
pub proof fn lemma_standard_address_checksum(sigscript: Seq<u8>, is_multisig: bool, testnet: bool)
    requires
        sha256_of(sha256_of(standard_address_payload(sigscript, is_multisig, testnet))).len()
            >= 4,
    ensures
        ({
            let b = standard_address_bytes(sigscript, is_multisig, testnet);
            let n = b.len() as int;
            &&& n == sigscript.len() + 5
            &&& b.subrange(0, n - 4) == standard_address_payload(sigscript, is_multisig, testnet)
            &&& b.subrange(n - 4, n) == sha256_of(sha256_of(b.subrange(0, n - 4))).take(4)
        }),
{
    let p = standard_address_payload(sigscript, is_multisig, testnet);
    let b = standard_address_bytes(sigscript, is_multisig, testnet);
    let n = b.len() as int;
    assert(b.subrange(0, n - 4) =~= p);
    assert(b.subrange(n - 4, n) =~= sha256_of(sha256_of(p)).take(4));
}

/// Law: base-58 derivation from the same payload differs between the
/// script-hash and pay-to-hash paths only in the version byte that heads
/// the encoded bytes; the payload bytes after it are the same, and each
/// path's checksum is the double digest of its own first bytes.
pub proof fn lemma_standard_address_version_only(sigscript: Seq<u8>, testnet: bool)
    ensures
        standard_address_payload(sigscript, true, testnet).subrange(
            1,
            sigscript.len() as int + 1,
        ) == standard_address_payload(sigscript, false, testnet).subrange(
            1,
            sigscript.len() as int + 1,
        ),
        standard_address_payload(sigscript, true, testnet)[0] == version_byte(true, testnet),
        standard_address_payload(sigscript, false, testnet)[0] == version_byte(false, testnet),
        version_byte(true, testnet) != version_byte(false, testnet),
{
    assert(standard_address_payload(sigscript, true, testnet).subrange(
        1,
        sigscript.len() as int + 1,
    ) =~= sigscript);
    assert(standard_address_payload(sigscript, false, testnet).subrange(
        1,
        sigscript.len() as int + 1,
    ) =~= sigscript);
}

} // verus!
