//! Room identifiers and session tokens: a SHA-256 digest of a timestamp and
//! a seed, written in base 36 (identifiers) or in hexadecimal (tokens).
use vstd::prelude::*;

use sha2::Digest;

verus! {

/// The SHA-256 digest of some bytes.
pub uninterp spec fn sha256_of(data: Seq<u8>) -> Seq<u8>;

/// Relies on `sha2::Sha256::digest`: the digest of the bytes, 32 bytes long.
#[verifier::external_body]
fn sha256(data: &[u8]) -> (r: Vec<u8>)
    ensures
        r@ == sha256_of(data@),
        r@.len() == 32,
{
    sha2::Sha256::digest(data).to_vec()
}

/// The number that big-endian bytes write.
pub open spec fn be_value(bytes: Seq<u8>) -> nat
    decreases bytes.len(),
{
    if bytes.len() == 0 {
        0
    } else {
        be_value(bytes.drop_last()) * 256 + bytes.last() as nat
    }
}

/// The base-36 digits of `n`, most significant first, none for zero.
pub open spec fn base36_digits(n: nat) -> Seq<u8> {
    radix_digits(n, 36)
}

/// The digits of `n` in base `radix`, most significant first, none for zero.
pub open spec fn radix_digits(n: nat, radix: nat) -> Seq<u8>
    decreases n
    via radix_digits_decreases
{
    if n == 0 || radix < 2 || radix > 256 {
        Seq::empty()
    } else {
        radix_digits(n / radix, radix).push((n % radix) as u8)
    }
}

#[via_fn]
proof fn radix_digits_decreases(n: nat, radix: nat) {
    if !(n == 0 || radix < 2 || radix > 256) {
        assert(n / radix < n) by (nonlinear_arith)
            requires
                n > 0,
                radix >= 2,
        ;
    }
}

/// Relies on `num_bigint::BigUint::from_bytes_be` to read big-endian bytes
/// as a number, and `BigUint::to_radix_be` to write it in `radix`: the digits,
/// most significant first; `[0]` for zero.
#[verifier::external_body]
fn digits_in_radix(bytes: &[u8], radix: u32) -> (r: Vec<u8>)
    requires
        2 <= radix <= 256,
    ensures
        r@ == if be_value(bytes@) == 0 {
            seq![0u8]
        } else {
            radix_digits(be_value(bytes@), radix as nat)
        },
{
    num_bigint::BigUint::from_bytes_be(bytes).to_radix_be(radix)
}

/// Relies on `uuid::Uuid::new_v4` and its `Display`: a random identifier in
/// its hyphenated form, 36 characters.
#[verifier::external_body]
fn random_uuid_text() -> (r: String)
    ensures
        r@.len() == 36,
{
    uuid::Uuid::new_v4().to_string()
}

/// Relies on `std::time::SystemTime::now`: milliseconds since the Unix
/// epoch, 0 for a clock set before it.
#[verifier::external_body]
fn now_millis() -> u128 {
    match std::time::SystemTime::now().duration_since(std::time::UNIX_EPOCH) {
        Ok(d) => d.as_millis(),
        Err(_) => 0,
    }
}

/// The decimal digits of `n`, as ASCII bytes.
pub open spec fn decimal(n: nat) -> Seq<u8>
    decreases n,
{
    if n < 10 {
        seq![(48 + n) as u8]
    } else {
        decimal(n / 10).push((48 + n % 10) as u8)
    }
}

/// Writes `n` in decimal.
pub fn decimal_bytes(n: u128) -> (r: Vec<u8>)
    ensures
        r@ == decimal(n as nat),
    decreases n,
{
    if n < 10 {
        let mut v: Vec<u8> = Vec::new();
        v.push(48 + n as u8);
        v
    } else {
        let mut v = decimal_bytes(n / 10);
        v.push(48 + (n % 10) as u8);
        v
    }
}

/// The bytes that are hashed: the timestamp in decimal, then the text.
pub open spec fn seed(timestamp: u128, text: Seq<char>) -> Seq<u8> {
    decimal(timestamp as nat) + vstd::utf8::encode_utf8(text)
}

fn seed_bytes(timestamp: u128, text: &str) -> (r: Vec<u8>)
    ensures
        r@ == seed(timestamp, text@),
{
    let mut v = decimal_bytes(timestamp);
    let b = text.as_bytes();
    let ghost before = v@;
    let mut i: usize = 0;
    while i < b.len()
        invariant
            i <= b@.len(),
            b@ == vstd::utf8::encode_utf8(text@),
            v@ == before + b@.subrange(0, i as int),
        decreases b.len() - i,
    {
        v.push(b[i]);
        assert(v@ =~= before + b@.subrange(0, i + 1 as int));
        i = i + 1;
    }
    assert(b@.subrange(0, i as int) =~= b@);
    v
}

/// The base-36 alphabet of room identifiers.
pub open spec fn base36_text(digits: Seq<u8>) -> Seq<char> {
    digits.map_values(|d: u8| "0123456789ABCDEFGHIJKLMNOPQRSTUVWXYZ"@[d as int])
}

/// The lowercase hexadecimal text of some bytes, two digits per byte.
pub open spec fn hex_text(bytes: Seq<u8>) -> Seq<char>
    decreases bytes.len(),
{
    if bytes.len() == 0 {
        Seq::empty()
    } else {
        hex_text(bytes.drop_last()) + seq![
            "0123456789abcdef"@[(bytes.last() / 16) as int],
            "0123456789abcdef"@[(bytes.last() % 16) as int],
        ]
    }
}

proof fn lemma_base36_not_zero_digit(n: nat)
    requires
        n > 0,
    ensures
        base36_digits(n) != seq![0u8],
{
    if n < 36 {
        assert(n / 36 == 0) by (nonlinear_arith)
            requires
                n < 36,
        ;
        assert(n % 36 == n) by (nonlinear_arith)
            requires
                n < 36,
        ;
        assert(base36_digits(0) =~= Seq::<u8>::empty());
        assert(radix_digits(n, 36) == radix_digits(n / 36, 36).push((n % 36) as u8));
        assert(base36_digits(n) =~= seq![n as u8]);
        assert(base36_digits(n)[0] != seq![0u8][0]);
    } else {
        assert(n / 36 > 0) by (nonlinear_arith)
            requires
                n >= 36,
        ;
        let q = n / 36;
        assert(radix_digits(q, 36) == radix_digits(q / 36, 36).push((q % 36) as u8));
        assert(radix_digits(n, 36) == radix_digits(q, 36).push((n % 36) as u8));
        assert(base36_digits(n).len() >= 2);
        assert(seq![0u8].len() == 1);
    }
}

proof fn lemma_base36_digits_small(n: nat)
    ensures
        forall|i: int| 0 <= i < base36_digits(n).len() ==> #[trigger] base36_digits(n)[i] < 36,
    decreases n,
{
    if n > 0 {
        lemma_base36_digits_small(n / 36);
        let s = radix_digits(n / 36, 36).push((n % 36) as u8);
        assert(base36_digits(n) == s);
        assert forall|i: int| 0 <= i < s.len() implies #[trigger] s[i] < 36 by {
            if i < s.len() - 1 {
                assert(s[i] == base36_digits(n / 36)[i]);
            }
        }
    }
}

/// The first `len` characters of the base-36 numeral of a digest; `None`
/// when the numeral is shorter than that.
pub fn base36_id(hash: &Vec<u8>, len: usize) -> (r: Option<String>)
    ensures
        r is Some <==> len <= base36_digits(be_value(hash@)).len(),
        r matches Some(id) ==> id@ == base36_text(base36_digits(be_value(hash@))).subrange(
            0,
            len as int,
        ),
{
    let digits = digits_in_radix(hash.as_slice(), 36);
    let ghost want = base36_digits(be_value(hash@));
    proof {
        lemma_base36_digits_small(be_value(hash@));
        if be_value(hash@) > 0 {
            lemma_base36_not_zero_digit(be_value(hash@));
        }
    }
    let zero = digits.len() == 1 && digits[0] == 0;
    assert(zero <==> be_value(hash@) == 0) by {
        if zero && be_value(hash@) > 0 {
            assert(digits@ =~= seq![0u8]);
        }
    }
    let available: usize = if zero {
        0
    } else {
        digits.len()
    };
    assert(available == want.len());
    if len > available {
        return None;
    }
    let alphabet: &str = "0123456789ABCDEFGHIJKLMNOPQRSTUVWXYZ";
    proof {
        reveal_strlit("0123456789ABCDEFGHIJKLMNOPQRSTUVWXYZ");
    }
    let mut id = String::new();
    let mut i: usize = 0;
    while i < len
        invariant
            i <= len <= want.len(),
            !zero ==> digits@ == want,
            zero ==> want.len() == 0,
            alphabet@ == "0123456789ABCDEFGHIJKLMNOPQRSTUVWXYZ"@,
            alphabet.is_ascii(),
            alphabet@.len() == 36,
            forall|k: int| 0 <= k < want.len() ==> #[trigger] want[k] < 36,
            id@ == base36_text(want).subrange(0, i as int),
        decreases len - i,
    {
        let d = digits[i] as usize;
        assert(d == want[i as int]);
        let ghost prev = id@;
        id.append(alphabet.substring_ascii(d, d + 1));
        assert(id@ =~= prev.push(alphabet@[d as int]));
        assert(id@ =~= base36_text(want).subrange(0, i + 1 as int));
        i = i + 1;
    }
    Some(id)
}

/// The identifier made from a timestamp and an address: the first `len`
/// base-36 characters of the digest of both; `None` when there are fewer.
pub fn id_for(timestamp: u128, ip: &str, len: usize) -> (r: Option<String>)
    ensures
        r is Some <==> len <= base36_digits(be_value(sha256_of(seed(timestamp, ip@)))).len(),
        r matches Some(id) ==> id@ == base36_text(
            base36_digits(be_value(sha256_of(seed(timestamp, ip@)))),
        ).subrange(0, len as int),
{
    let hash = sha256(seed_bytes(timestamp, ip).as_slice());
    base36_id(&hash, len)
}

/// A new room identifier of `len` characters, from the clock and the
/// creator's address; `None` in the rare case of a shorter numeral.
pub fn generate_id(ip: &str, len: usize) -> (r: Option<String>)
    ensures
        r matches Some(id) ==> id@.len() == len,
{
    id_for(now_millis(), ip, len)
}

/// Writes bytes in lowercase hexadecimal.
pub fn hex_lower(bytes: &Vec<u8>) -> (r: String)
    ensures
        r@ == hex_text(bytes@),
{
    let alphabet: &str = "0123456789abcdef";
    proof {
        reveal_strlit("0123456789abcdef");
    }
    let mut out = String::new();
    let mut i: usize = 0;
    while i < bytes.len()
        invariant
            i <= bytes@.len(),
            alphabet@ == "0123456789abcdef"@,
            alphabet.is_ascii(),
            alphabet@.len() == 16,
            out@ == hex_text(bytes@.subrange(0, i as int)),
        decreases bytes.len() - i,
    {
        let b = bytes[i] as usize;
        out.append(alphabet.substring_ascii(b / 16, b / 16 + 1));
        out.append(alphabet.substring_ascii(b % 16, b % 16 + 1));
        assert(bytes@.subrange(0, i + 1 as int).drop_last() =~= bytes@.subrange(0, i as int));
        assert(out@ =~= hex_text(bytes@.subrange(0, i + 1 as int)));
        i = i + 1;
    }
    assert(bytes@.subrange(0, i as int) =~= bytes@);
    out
}

proof fn lemma_hex_len(bytes: Seq<u8>)
    ensures
        hex_text(bytes).len() == 2 * bytes.len(),
    decreases bytes.len(),
{
    if bytes.len() > 0 {
        lemma_hex_len(bytes.drop_last());
    }
}

/// The session token made from a timestamp and a nonce: the hexadecimal
/// digest of both.
pub fn auth_token_for(timestamp: u128, nonce: &str) -> (r: String)
    ensures
        r@ == hex_text(sha256_of(seed(timestamp, nonce@))),
{
    let hash = sha256(seed_bytes(timestamp, nonce).as_slice());
    hex_lower(&hash)
}

/// A new session token, from the clock and a random identifier: 64
/// hexadecimal characters.
pub fn generate_auth_token() -> (r: String)
    ensures
        r@.len() == 64,
{
    let nonce = random_uuid_text();
    let hash = sha256(seed_bytes(now_millis(), nonce.as_str()).as_slice());
    proof {
        lemma_hex_len(hash@);
    }
    hex_lower(&hash)
}

/// A new participant identifier: a random identifier in its hyphenated form.
pub fn new_user_uid() -> (r: String)
    ensures
        r@.len() == 36,
{
    random_uuid_text()
}

} // verus!
