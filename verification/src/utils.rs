use vstd::prelude::*;
use vstd::string::StringExecFns;
use vstd::arithmetic::div_mod::{lemma_mul_mod_noop_left, lemma_add_mod_noop, lemma_small_mod};

verus! {

/// One more than `u64::MAX`: the modulus of the 64-bit accumulator that the
/// varint decoder folds bytes into.
pub const U64_MOD: u128 = 0x1_0000_0000_0000_0000;

// ---------------------------------------------------------------------------
// Varint codec
//
// The chainstate stores integers big-endian, 7 bits per byte.  A set high bit
// means "more bytes follow" and also adds one to the accumulator, so that
// every value has exactly one encoding.  The byte with the high bit clear
// terminates the field.
// ---------------------------------------------------------------------------

/// The unbounded value of a varint byte string: each byte contributes its low
/// seven bits, and every continuation byte (high bit set) contributes an
/// extra one after the shift.
pub open spec fn vint_value(s: Seq<u8>) -> nat
    decreases s.len(),
{
    if s.len() == 0 {
        0
    } else {
        vint_value(s.drop_last()) * 128 + (s.last() % 128) as nat + (if s.last() >= 128 {
            1nat
        } else {
            0nat
        })
    }
}

/// Where the varint field that starts at `i` ends: one past the first byte
/// with a clear high bit, or the end of the slice if every byte continues.
pub open spec fn vint_end(s: Seq<u8>, i: int) -> int
    decreases s.len() - i,
{
    if i < 0 || i >= s.len() {
        s.len() as int
    } else if s[i] < 128 {
        i + 1
    } else {
        vint_end(s, i + 1)
    }
}

/// Whether a varint field starting at `i` has its terminal byte inside the
/// slice; when this is false the field is truncated.
pub open spec fn vint_ok(s: Seq<u8>, i: int) -> bool
    decreases s.len() - i,
{
    if i < 0 || i >= s.len() {
        false
    } else if s[i] < 128 {
        true
    } else {
        vint_ok(s, i + 1)
    }
}

/// The 64-bit value of the varint field that starts at `i`.
pub open spec fn chunk_value(s: Seq<u8>, i: int) -> u64 {
    (vint_value(s.subrange(i, vint_end(s, i))) % U64_MOD as nat) as u64
}

/// Basic facts about where a varint field ends: the end never moves left of
/// the start nor past the slice; a well-formed field ends on a byte with a
/// clear high bit; a truncated field runs to the end of the slice with every
/// byte continuing.
pub proof fn lemma_vint_end_bounds(s: Seq<u8>, i: int)
    requires
        0 <= i <= s.len(),
    ensures
        i <= vint_end(s, i) <= s.len(),
        i < s.len() ==> i + 1 <= vint_end(s, i),
        vint_ok(s, i) ==> s[vint_end(s, i) - 1] < 128,
        vint_ok(s, i) ==> forall|j: int| i <= j < vint_end(s, i) - 1 ==> s[j] >= 128,
        !vint_ok(s, i) ==> vint_end(s, i) == s.len(),
        !vint_ok(s, i) ==> forall|j: int| i <= j < s.len() ==> s[j] >= 128,
    decreases s.len() - i,
{
    if i < s.len() && s[i] >= 128 {
        lemma_vint_end_bounds(s, i + 1);
    }
}

/// Scanning forward over continuation bytes pins down the end of the field:
/// if every byte from `i` up to `x` has its high bit set, the field ends
/// right after the first terminal byte at or past `x`.
pub proof fn lemma_vint_scan(s: Seq<u8>, i: int, x: int)
    requires
        0 <= i <= x <= s.len(),
        forall|j: int| i <= j < x ==> s[j] >= 128,
    ensures
        x == s.len() ==> vint_end(s, i) == s.len() && !vint_ok(s, i),
        x < s.len() && s[x] < 128 ==> vint_end(s, i) == x + 1 && vint_ok(s, i),
    decreases x - i,
{
    if i < x {
        lemma_vint_scan(s, i + 1, x);
    }
}

/// Reads the raw bytes of one varint field: everything from `offset` through
/// the first byte with a clear high bit, or the whole tail when the field is
/// truncated.
pub fn get_vint(data: &Vec<u8>, offset: &usize) -> (r: Vec<u8>)
    requires
        *offset <= data@.len(),
    ensures
        r@ == data@.subrange(*offset as int, vint_end(data@, *offset as int)),
{
    let mut res: Vec<u8> = Vec::new();
    let mut x: usize = *offset;
    loop
        invariant
            *offset <= x <= data@.len(),
            res@ == data@.subrange(*offset as int, x as int),
            forall|j: int| *offset <= j < x ==> data@[j] >= 128,
        decreases data@.len() - x,
    {
        if x >= data.len() {
            proof {
                lemma_vint_scan(data@, *offset as int, x as int);
            }
            return res;
        }
        let b = data[x];
        res.push(b);
        proof {
            assert(res@ =~= data@.subrange(*offset as int, x + 1));
        }
        if b & 128 == 0 {
            proof {
                assert(b < 128) by (bit_vector)
                    requires
                        b & 128 == 0,
                ;
                lemma_vint_scan(data@, *offset as int, x as int);
            }
            return res;
        }
        proof {
            assert(b >= 128) by (bit_vector)
                requires
                    b & 128 != 0,
            ;
        }
        x = x + 1;
    }
}

/// Decodes a varint byte string into the low 64 bits of its value.
pub fn decode_vint(data: &Vec<u8>) -> (r: u64)
    ensures
        r as nat == vint_value(data@) % U64_MOD as nat,
        vint_value(data@) < U64_MOD as nat ==> r as nat == vint_value(data@),
{
    let mut n: u64 = 0;
    let mut i: usize = 0;
    while i < data.len()
        invariant
            0 <= i <= data@.len(),
            n as nat == vint_value(data@.take(i as int)) % U64_MOD as nat,
        decreases data@.len() - i,
    {
        let b = data[i];
        let low: u64 = (b & 127) as u64;
        let carry: u64 = if b & 128 != 0 {
            1
        } else {
            0
        };
        let wide: u128 = (n as u128) * 128 + (low as u128) + (carry as u128);
        proof {
            let prefix = data@.take(i as int);
            let next = data@.take(i + 1);
            assert(next.drop_last() =~= prefix);
            assert(next.last() == b);
            assert(b & 127 == b % 128) by (bit_vector);
            assert((b & 128 != 0) <==> b >= 128) by (bit_vector);
            let m = U64_MOD as int;
            let v = vint_value(prefix) as int;
            let c = (low + carry) as int;
            assert(vint_value(next) == v * 128 + c);
            lemma_mul_mod_noop_left(v, 128, m);
            lemma_add_mod_noop(v * 128, c, m);
            lemma_add_mod_noop((v % m) * 128, c, m);
            lemma_small_mod(c as nat, m as nat);
            assert((v % m * 128 + c) % m == (v * 128 + c) % m);
            assert(wide as int == v % m * 128 + c);
        }
        n = (wide % U64_MOD) as u64;
        i = i + 1;
    }
    proof {
        assert(data@.take(data@.len() as int) =~= data@);
        if vint_value(data@) < U64_MOD as nat {
            lemma_small_mod(vint_value(data@), U64_MOD as nat);
        }
    }
    n
}

/// Reads one varint field at `offset`: the decoded 64-bit value and the
/// offset just past the field, or `None` when the field is truncated.
pub fn read_chunk(data: &Vec<u8>, offset: &usize) -> (r: Option<(u64, usize)>)
    requires
        *offset <= data@.len(),
    ensures
        match r {
            Some(c) => {
                &&& vint_ok(data@, *offset as int)
                &&& c.0 == chunk_value(data@, *offset as int)
                &&& c.1 == vint_end(data@, *offset as int)
                &&& *offset < c.1 <= data@.len()
            },
            None => !vint_ok(data@, *offset as int),
        },
{
    let field = get_vint(data, offset);
    proof {
        lemma_vint_end_bounds(data@, *offset as int);
    }
    if field.len() == 0 {
        return None;
    }
    let lastb = field[field.len() - 1];
    if lastb & 128 != 0 {
        proof {
            assert(lastb >= 128) by (bit_vector)
                requires
                    lastb & 128 != 0,
            ;
        }
        return None;
    }
    proof {
        assert(lastb < 128) by (bit_vector)
            requires
                lastb & 128 == 0,
        ;
    }
    let chunk = decode_vint(&field);
    let data_len = data.len();
    proof {
        assert(*offset + field@.len() == vint_end(data@, *offset as int));
        assert(vint_end(data@, *offset as int) <= data_len);
    }
    Some((chunk, *offset + field.len()))
}

fn encode_vint_cont(m: u64) -> (r: Vec<u8>)
    ensures
        vint_value(r@) == m as nat,
        forall|j: int| 0 <= j < r@.len() ==> r@[j] >= 128,
    decreases m,
{
    if m == 0 {
        Vec::new()
    } else {
        proof {
            vstd::arithmetic::div_mod::lemma_div_is_ordered((m - 1) as int, m as int, 128);
        }
        let mut r = encode_vint_cont((m - 1) / 128);
        let low: u8 = ((m - 1) % 128) as u8;
        let b: u8 = low | 0x80;
        proof {
            assert(b >= 128 && b % 128 == low) by (bit_vector)
                requires
                    low < 128,
                    b == low | 0x80,
            ;
            vstd::arithmetic::div_mod::lemma_fundamental_div_mod((m - 1) as int, 128);
        }
        let ghost prev = r@;
        r.push(b);
        proof {
            assert(r@.drop_last() =~= prev);
        }
        r
    }
}

/// Encodes a 64-bit value in the varint format; the decoder's exact inverse.
/// Together with `decode_vint`, whose result is the value of the bytes, this
/// states the round trip: decoding an encoded value gives it back.
pub fn encode_vint(v: u64) -> (r: Vec<u8>)
    ensures
        vint_value(r@) == v as nat,
        r@.len() >= 1,
        vint_ok(r@, 0),
        vint_end(r@, 0) == r@.len(),
{
    let mut r = encode_vint_cont(v / 128);
    let last: u8 = (v % 128) as u8;
    let ghost prev = r@;
    r.push(last);
    proof {
        assert(r@.drop_last() =~= prev);
        vstd::arithmetic::div_mod::lemma_fundamental_div_mod(v as int, 128);
        lemma_vint_scan(r@, 0, r@.len() - 1);
    }
    r
}

// ---------------------------------------------------------------------------
// Obfuscation layer
// ---------------------------------------------------------------------------

/// One byte of the deobfuscated stream: the data byte XORed with the key
/// byte at the same position, the key repeating; an empty key leaves the
/// byte unchanged.
pub open spec fn deob_byte(okey: Seq<u8>, data: Seq<u8>, i: int) -> u8 {
    if okey.len() == 0 {
        data[i]
    } else {
        data[i] ^ okey[i % okey.len() as int]
    }
}

/// The deobfuscated stream as a whole.
pub open spec fn deob_seq(okey: Seq<u8>, data: Seq<u8>) -> Seq<u8> {
    Seq::new(data.len(), |i: int| deob_byte(okey, data, i))
}

/// XORs the repeating obfuscation key over the data; an empty key is the
/// identity.
pub fn deobfuscate(obfuscate_key: &Vec<u8>, data: &Vec<u8>) -> (r: Vec<u8>)
    ensures
        r@ == deob_seq(obfuscate_key@, data@),
        r@.len() == data@.len(),
{
    let mut res: Vec<u8> = Vec::new();
    let mut i: usize = 0;
    while i < data.len()
        invariant
            0 <= i <= data@.len(),
            res@.len() == i,
            forall|j: int| 0 <= j < i ==> res@[j] == deob_byte(obfuscate_key@, data@, j),
        decreases data@.len() - i,
    {
        let d = data[i];
        if obfuscate_key.len() == 0 {
            res.push(d);
        } else {
            let k = obfuscate_key[i % obfuscate_key.len()];
            res.push(d ^ k);
        }
        i = i + 1;
    }
    proof {
        assert(res@ =~= deob_seq(obfuscate_key@, data@));
    }
    res
}

/// Law: deobfuscation is an involution; applying the same key twice gives
/// the data back, whatever the key and data.
pub proof fn lemma_deobfuscate_involution(okey: Seq<u8>, data: Seq<u8>)
    ensures
        deob_seq(okey, deob_seq(okey, data)) == data,
{
    let once = deob_seq(okey, data);
    assert forall|i: int| 0 <= i < data.len() implies deob_byte(okey, once, i) == data[i] by {
        if okey.len() > 0 {
            let d = data[i];
            let k = okey[i % okey.len() as int];
            assert((d ^ k) ^ k == d) by (bit_vector);
        }
    }
    assert(deob_seq(okey, deob_seq(okey, data)) =~= data);
}

// ---------------------------------------------------------------------------
// Amount codec
// ---------------------------------------------------------------------------

/// Ten to the power `e`.
pub open spec fn pow10(e: nat) -> nat
    decreases e,
{
    if e == 0 {
        1
    } else {
        10 * pow10((e - 1) as nat)
    }
}

/// The satoshi amount that a compressed amount stands for.  Zero maps to
/// zero; otherwise the low decimal digit count `e` and the packed digits `n`
/// are unfolded back into `base * 10^e`.
pub open spec fn decompressed_amount(x: nat) -> nat {
    if x == 0 {
        0
    } else {
        let e = (x - 1) % 10;
        let n = (x + 1) / 10;
        let base = if e < 9 {
            (n / 9) * 10 + n % 9 + 1
        } else {
            n + 1
        };
        (base * pow10(e as nat)) as nat
    }
}

/// The decompressed amount clipped to 64 bits.
pub open spec fn amount_u64(x: u64) -> u64 {
    if decompressed_amount(x as nat) > u64::MAX {
        u64::MAX
    } else {
        decompressed_amount(x as nat) as u64
    }
}

proof fn lemma_pow10_nine()
    ensures
        pow10(9) == 1000000000,
{
    reveal_with_fuel(pow10, 11);
}

proof fn lemma_pow10_mono(a: nat, b: nat)
    requires
        a <= b,
    ensures
        pow10(a) <= pow10(b),
    decreases b,
{
    if a < b {
        lemma_pow10_mono(a, (b - 1) as nat);
    }
}

/// Ten to the power `e`, for small `e`.
fn pow10_u64(e: u64) -> (r: u64)
    requires
        e <= 9,
    ensures
        r as nat == pow10(e as nat),
{
    let mut p: u64 = 1;
    let mut j: u64 = 0;
    while j < e
        invariant
            0 <= j <= e <= 9,
            p as nat == pow10(j as nat),
        decreases e - j,
    {
        proof {
            lemma_pow10_mono(j as nat + 1, 9);
            lemma_pow10_nine();
        }
        p = p * 10;
        j = j + 1;
    }
    p
}

/// Expands a compressed amount into satoshis.  The result is exact whenever
/// the true amount fits in 64 bits, and clips to `u64::MAX` otherwise.
pub fn convert_amount(input: u64) -> (r: u64)
    ensures
        r == amount_u64(input),
{
    if input == 0 {
        return 0;
    }
    let e: u64 = (input - 1) % 10;
    let n: u64 = (((input as u128) + 1) / 10) as u64;
    proof {
        assert(n as nat == ((input as nat) + 1) / 10);
        assert(n <= 1844674407370955161) by {
            assert(((input as int) + 1) / 10 <= (0xffff_ffff_ffff_ffffint + 1) / 10);
        }
        assert(n / 9 <= 204963823041217240) by {
            vstd::arithmetic::div_mod::lemma_div_is_ordered(n as int, 1844674407370955161, 9);
        }
    }
    let base: u64 = if e < 9 {
        (n / 9) * 10 + n % 9 + 1
    } else {
        n + 1
    };
    let p: u64 = pow10_u64(e);
    proof {
        assert(pow10(e as nat) <= pow10(9)) by {
            lemma_pow10_mono(e as nat, 9);
        }
        lemma_pow10_nine();
        assert((base as int) * (p as int) <= 0xffff_ffff_ffff_ffffint * 1000000000) by (nonlinear_arith)
            requires
                0 <= base as int <= 0xffff_ffff_ffff_ffffint,
                0 <= p as int <= 1000000000,
        ;
    }
    let prod: u128 = (base as u128) * (p as u128);
    proof {
        assert((base as int) * (p as int) == decompressed_amount(input as nat));
    }
    if prod > u64::MAX as u128 {
        u64::MAX
    } else {
        prod as u64
    }
}

// ---------------------------------------------------------------------------
// Hex rendering
// ---------------------------------------------------------------------------

/// The lower-case hex digit for a value below sixteen.
pub open spec fn hex_digit(d: int) -> char {
    if d == 0 {
        '0'
    } else if d == 1 {
        '1'
    } else if d == 2 {
        '2'
    } else if d == 3 {
        '3'
    } else if d == 4 {
        '4'
    } else if d == 5 {
        '5'
    } else if d == 6 {
        '6'
    } else if d == 7 {
        '7'
    } else if d == 8 {
        '8'
    } else if d == 9 {
        '9'
    } else if d == 10 {
        'a'
    } else if d == 11 {
        'b'
    } else if d == 12 {
        'c'
    } else if d == 13 {
        'd'
    } else if d == 14 {
        'e'
    } else {
        'f'
    }
}

/// The hex rendering of a byte string: two lower-case digits per byte, high
/// nibble first.
pub open spec fn hex_of(s: Seq<u8>) -> Seq<char>
    decreases s.len(),
{
    if s.len() == 0 {
        Seq::empty()
    } else {
        hex_of(s.drop_last()) + seq![
            hex_digit(s.last() as int / 16),
            hex_digit(s.last() as int % 16),
        ]
    }
}

fn hex_char(d: u8) -> (r: &'static str)
    requires
        d < 16,
    ensures
        r@ =~= seq![hex_digit(d as int)],
{
    proof {
        reveal_strlit("0");
        reveal_strlit("1");
        reveal_strlit("2");
        reveal_strlit("3");
        reveal_strlit("4");
        reveal_strlit("5");
        reveal_strlit("6");
        reveal_strlit("7");
        reveal_strlit("8");
        reveal_strlit("9");
        reveal_strlit("a");
        reveal_strlit("b");
        reveal_strlit("c");
        reveal_strlit("d");
        reveal_strlit("e");
        reveal_strlit("f");
    }
    match d {
        0 => "0",
        1 => "1",
        2 => "2",
        3 => "3",
        4 => "4",
        5 => "5",
        6 => "6",
        7 => "7",
        8 => "8",
        9 => "9",
        10 => "a",
        11 => "b",
        12 => "c",
        13 => "d",
        14 => "e",
        _ => "f",
    }
}

/// Renders bytes as lower-case hex, two digits per byte.
pub fn bin2hex(input: &Vec<u8>) -> (r: String)
    ensures
        r@ == hex_of(input@),
{
    let mut res = String::new();
    let mut i: usize = 0;
    while i < input.len()
        invariant
            0 <= i <= input@.len(),
            res@ == hex_of(input@.take(i as int)),
        decreases input@.len() - i,
    {
        let b = input[i];
        res.append(hex_char(b / 16));
        res.append(hex_char(b % 16));
        proof {
            let next = input@.take(i + 1);
            assert(next.drop_last() =~= input@.take(i as int));
            assert(next.last() == b);
            assert(res@ =~= hex_of(next));
        }
        i = i + 1;
    }
    proof {
        assert(input@.take(input@.len() as int) =~= input@);
    }
    res
}

// ---------------------------------------------------------------------------
// Decimal rendering and saturating addition, shared by the record assembler
// ---------------------------------------------------------------------------

/// The decimal digit for a value below ten.
pub open spec fn dec_digit(d: int) -> char {
    if d == 0 {
        '0'
    } else if d == 1 {
        '1'
    } else if d == 2 {
        '2'
    } else if d == 3 {
        '3'
    } else if d == 4 {
        '4'
    } else if d == 5 {
        '5'
    } else if d == 6 {
        '6'
    } else if d == 7 {
        '7'
    } else if d == 8 {
        '8'
    } else {
        '9'
    }
}

/// The decimal rendering of a natural number, without leading zeros (zero
/// itself renders as one digit).
pub open spec fn dec_of(n: nat) -> Seq<char>
    decreases n,
{
    if n < 10 {
        seq![dec_digit(n as int)]
    } else {
        dec_of(n / 10) + seq![dec_digit((n % 10) as int)]
    }
}

fn dec_char(d: u64) -> (r: &'static str)
    requires
        d < 10,
    ensures
        r@ =~= seq![dec_digit(d as int)],
{
    proof {
        reveal_strlit("0");
        reveal_strlit("1");
        reveal_strlit("2");
        reveal_strlit("3");
        reveal_strlit("4");
        reveal_strlit("5");
        reveal_strlit("6");
        reveal_strlit("7");
        reveal_strlit("8");
        reveal_strlit("9");
    }
    match d {
        0 => "0",
        1 => "1",
        2 => "2",
        3 => "3",
        4 => "4",
        5 => "5",
        6 => "6",
        7 => "7",
        8 => "8",
        _ => "9",
    }
}

/// Renders a 64-bit number in decimal.
pub fn u64_to_dec(n: u64) -> (r: String)
    ensures
        r@ == dec_of(n as nat),
    decreases n,
{
    if n < 10 {
        let mut res = String::new();
        res.append(dec_char(n));
        proof {
            assert(res@ =~= dec_of(n as nat));
        }
        res
    } else {
        let mut res = u64_to_dec(n / 10);
        res.append(dec_char(n % 10));
        proof {
            assert(res@ =~= dec_of(n as nat));
        }
        res
    }
}

/// Adds two 64-bit totals, clipping at `u64::MAX`.
pub open spec fn sat_add(a: u64, b: u64) -> u64 {
    if a + b > u64::MAX {
        u64::MAX
    } else {
        (a + b) as u64
    }
}

/// Saturating 64-bit addition, for the scan's running totals.
pub fn sat_add_u64(a: u64, b: u64) -> (r: u64)
    ensures
        r == sat_add(a, b),
{
    if b <= u64::MAX - a {
        a + b
    } else {
        u64::MAX
    }
}

} // verus!
