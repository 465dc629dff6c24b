//! The encryption envelope: a record serialized to bytes is encrypted under a
//! 256-bit key in CBC mode with PKCS#7 padding and a fresh random IV, and the
//! IV and ciphertext are returned as `"<iv hex>:<ciphertext hex>"`. A
//! lightweight XOR-based obfuscation variant is also provided; it offers no
//! cryptographic security.

use block_modes::BlockMode;
use rand::RngCore;
use vstd::prelude::*;
use vstd::string::StrSliceExecFns;
use vstd::string::StringExecFns;

use crate::segment::{find_char, find_char_from, lemma_find_char_from};

verus! {

/// The sixteen hexadecimal digits, lowercase, in value order.
pub open spec fn hex_digits() -> Seq<char> {
    seq!['0', '1', '2', '3', '4', '5', '6', '7', '8', '9', 'a', 'b', 'c', 'd', 'e', 'f']
}

/// The lowercase hexadecimal digit of a value below 16.
pub open spec fn hex_digit(n: u8) -> char
    recommends
        n < 16,
{
    hex_digits()[n as int]
}

/// The lowercase hexadecimal encoding of a byte sequence, two digits a byte.
pub open spec fn hex_of(b: Seq<u8>) -> Seq<char>
    decreases b.len(),
{
    if b.len() == 0 {
        Seq::empty()
    } else {
        seq![hex_digit(b[0] / 16), hex_digit(b[0] % 16)] + hex_of(b.drop_first())
    }
}

/// Whether `c` is a hexadecimal digit, either case.
pub open spec fn is_hex_digit_char(c: char) -> bool {
    (48 <= c as u32 && c as u32 <= 57) || (97 <= c as u32 && c as u32 <= 102) || (65 <= c as u32
        && c as u32 <= 70)
}

/// The value of a hexadecimal digit.
pub open spec fn hex_val(c: char) -> int
    recommends
        is_hex_digit_char(c),
{
    if 48 <= c as u32 && c as u32 <= 57 {
        c as u32 - 48
    } else if 97 <= c as u32 && c as u32 <= 102 {
        c as u32 - 87
    } else {
        c as u32 - 55
    }
}

/// Whether `s` is a well-formed hexadecimal string: even length, digits only.
pub open spec fn is_hex(s: Seq<char>) -> bool {
    s.len() % 2 == 0 && forall|i: int| 0 <= i < s.len() ==> is_hex_digit_char(#[trigger] s[i])
}

/// The bytes of a hexadecimal string, two digits a byte.
pub open spec fn unhex(s: Seq<char>) -> Seq<u8>
    decreases s.len(),
{
    if s.len() < 2 {
        Seq::empty()
    } else {
        seq![(16 * hex_val(s[0]) + hex_val(s[1])) as u8] + unhex(s.skip(2))
    }
}

proof fn lemma_hex_digit(n: u8)
    requires
        n < 16,
    ensures
        is_hex_digit_char(hex_digit(n)),
        hex_val(hex_digit(n)) == n as int,
        hex_digit(n) != ':',
{
    if n == 0 {
        assert(hex_digit(0) == '0');
    } else if n == 1 {
        assert(hex_digit(1) == '1');
    } else if n == 2 {
        assert(hex_digit(2) == '2');
    } else if n == 3 {
        assert(hex_digit(3) == '3');
    } else if n == 4 {
        assert(hex_digit(4) == '4');
    } else if n == 5 {
        assert(hex_digit(5) == '5');
    } else if n == 6 {
        assert(hex_digit(6) == '6');
    } else if n == 7 {
        assert(hex_digit(7) == '7');
    } else if n == 8 {
        assert(hex_digit(8) == '8');
    } else if n == 9 {
        assert(hex_digit(9) == '9');
    } else if n == 10 {
        assert(hex_digit(10) == 'a');
    } else if n == 11 {
        assert(hex_digit(11) == 'b');
    } else if n == 12 {
        assert(hex_digit(12) == 'c');
    } else if n == 13 {
        assert(hex_digit(13) == 'd');
    } else if n == 14 {
        assert(hex_digit(14) == 'e');
    } else {
        assert(hex_digit(15) == 'f');
    }
}

/// Law: hexadecimal encoding and decoding are inverse. The encoding of `b`
/// is a well-formed hexadecimal string of twice the length, free of ':', and
/// decodes back to `b`.
pub proof fn lemma_hex_round_trip(b: Seq<u8>)
    ensures
        hex_of(b).len() == 2 * b.len(),
        is_hex(hex_of(b)),
        unhex(hex_of(b)) == b,
        forall|i: int| 0 <= i < hex_of(b).len() ==> #[trigger] hex_of(b)[i] != ':',
    decreases b.len(),
{
    if b.len() == 0 {
        assert(unhex(hex_of(b)) =~= b);
    } else {
        lemma_hex_digit(b[0] / 16);
        lemma_hex_digit(b[0] % 16);
        lemma_hex_round_trip(b.drop_first());
        let h = hex_of(b);
        assert(h.skip(2) =~= hex_of(b.drop_first()));
        assert((16 * hex_val(h[0]) + hex_val(h[1])) as u8 == b[0]);
        assert(unhex(h) =~= b);
    }
}

/// Relies on hex::encode: every byte becomes two lowercase hexadecimal
/// digits, in order.
#[verifier::external_body]
pub(crate) fn hex_encode(b: &[u8]) -> (r: String)
    ensures
        r@ == hex_of(b@),
{
    hex::encode(b)
}

/// Relies on hex::decode: an even-length string of hexadecimal digits (either
/// case) decodes to its bytes; any other string is rejected.
#[verifier::external_body]
fn hex_decode(s: &str) -> (r: Option<Vec<u8>>)
    ensures
        match r {
            Some(b) => is_hex(s@) && b@ == unhex(s@),
            None => !is_hex(s@),
        },
{
    hex::decode(s).ok()
}

/// The ciphertext that AES-256-CBC with PKCS#7 padding produces.
pub uninterp spec fn aes_cbc_encrypt(key: Seq<u8>, iv: Seq<u8>, plain: Seq<u8>) -> Seq<u8>;

/// The plaintext that AES-256-CBC decryption recovers, or nothing when the
/// ciphertext length or padding is wrong.
pub uninterp spec fn aes_cbc_decrypt(key: Seq<u8>, iv: Seq<u8>, ct: Seq<u8>) -> Option<Seq<u8>>;

/// Relies on block-modes' Cbc<Aes256, Pkcs7>: new_from_slices accepts a
/// 32-byte key with a 16-byte IV, encrypt_vec pads and encrypts, and
/// decrypt_vec under the same key and IV restores the plaintext. PKCS#7
/// always appends between 1 and 16 padding bytes, so the ciphertext fills
/// the next whole block: its length is 16 * (n / 16 + 1) for an n-byte
/// plaintext.
#[verifier::external_body]
fn cbc_encrypt(key: &[u8], iv: &[u8], plain: &[u8]) -> (r: Vec<u8>)
    requires
        key@.len() == 32,
        iv@.len() == 16,
    ensures
        r@ == aes_cbc_encrypt(key@, iv@, plain@),
        aes_cbc_decrypt(key@, iv@, r@) == Some(plain@),
        r@.len() == (plain@.len() / 16 + 1) * 16,
{
    let cipher = block_modes::Cbc::<aes::Aes256, block_modes::block_padding::Pkcs7>::new_from_slices(
        key,
        iv,
    ).unwrap();
    cipher.encrypt_vec(plain)
}

/// Relies on block-modes' Cbc<Aes256, Pkcs7>: decrypt_vec returns the
/// unpadded plaintext, or an error when the ciphertext length is not a block
/// multiple or the padding is malformed.
#[verifier::external_body]
fn cbc_decrypt(key: &[u8], iv: &[u8], ct: &[u8]) -> (r: Option<Vec<u8>>)
    requires
        key@.len() == 32,
        iv@.len() == 16,
    ensures
        match r {
            Some(p) => aes_cbc_decrypt(key@, iv@, ct@) == Some(p@),
            None => aes_cbc_decrypt(key@, iv@, ct@) is None,
        },
{
    let cipher = block_modes::Cbc::<aes::Aes256, block_modes::block_padding::Pkcs7>::new_from_slices(
        key,
        iv,
    ).unwrap();
    cipher.decrypt_vec(ct).ok()
}

/// Relies on rand's thread-local cryptographically secure generator to fill
/// 16 bytes; nothing is assumed of the values beyond the length.
#[verifier::external_body]
fn random_iv() -> (r: Vec<u8>)
    ensures
        r@.len() == 16,
{
    let mut iv = [0u8; 16];
    rand::thread_rng().fill_bytes(&mut iv);
    iv.to_vec()
}

/// Why unsealing failed.
#[derive(Clone, Copy, Debug, PartialEq, Eq, Structural)]
pub enum EnvelopeError {
    /// The sealed string does not split into exactly two ':'-separated parts.
    Format,
    /// One of the two parts is not valid hexadecimal.
    Decode,
    /// The IV has the wrong size, or decryption failed: wrong key, bad
    /// length, or corrupted payload.
    Crypto,
    /// The decrypted bytes do not parse as a record.
    Deserialize,
}

/// What unsealing `s` under `key` yields: split at the single ':',
/// hex-decode both parts, and decrypt the second under the first as IV.
pub open spec fn unseal_model(key: Seq<u8>, s: Seq<char>) -> Result<Seq<u8>, EnvelopeError> {
    match find_char_from(s, 0, ':') {
        None => Err(EnvelopeError::Format),
        Some(i) => {
            if find_char_from(s, i + 1, ':') is Some {
                Err(EnvelopeError::Format)
            } else if !is_hex(s.take(i)) || !is_hex(s.skip(i + 1)) {
                Err(EnvelopeError::Decode)
            } else if unhex(s.take(i)).len() != 16 {
                Err(EnvelopeError::Crypto)
            } else {
                match aes_cbc_decrypt(key, unhex(s.take(i)), unhex(s.skip(i + 1))) {
                    None => Err(EnvelopeError::Crypto),
                    Some(p) => Ok(p),
                }
            }
        },
    }
}

proof fn lemma_find_char_exact(s: Seq<char>, i: int, j: int, c: char)
    requires
        0 <= i <= j < s.len(),
        s[j] == c,
        forall|k: int| i <= k < j ==> s[k] != c,
    ensures
        find_char_from(s, i, c) == Some(j),
    decreases j - i,
{
    if i < j {
        lemma_find_char_exact(s, i + 1, j, c);
    }
}

proof fn lemma_find_char_none(s: Seq<char>, i: int, c: char)
    requires
        0 <= i,
        forall|k: int| i <= k < s.len() ==> s[k] != c,
    ensures
        find_char_from(s, i, c) is None,
    decreases s.len() - i,
{
    if i < s.len() {
        lemma_find_char_none(s, i + 1, c);
    }
}

/// Seal `plain` under the 32-byte `key`: encrypt with a fresh random 16-byte
/// IV and return `"<iv hex>:<ciphertext hex>"` — 32 hexadecimal digits of IV,
/// one ':', then one whole padded block of ciphertext per 16 plaintext bytes
/// begun. The result always unseals back to `plain` under the same key.
pub fn seal(key: &[u8], plain: &[u8]) -> (r: String)
    requires
        key@.len() == 32,
    ensures
        unseal_model(key@, r@) == Ok::<Seq<u8>, EnvelopeError>(plain@),
        exists|iv: Seq<u8>|
            iv.len() == 16 && r@ == hex_of(iv) + seq![':'] + hex_of(
                aes_cbc_encrypt(key@, iv, plain@),
            ),
        r@.len() == 33 + 32 * (plain@.len() / 16 + 1),
{
    let iv = random_iv();
    let ct = cbc_encrypt(key, iv.as_slice(), plain);
    let iv_hex = hex_encode(iv.as_slice());
    let ct_hex = hex_encode(ct.as_slice());
    let mut out = iv_hex;
    out.append(":");
    out.append(ct_hex.as_str());
    proof {
        lemma_hex_round_trip(iv@);
        lemma_hex_round_trip(ct@);
        reveal_strlit(":");
        assert(":"@ =~= seq![':']);
        let ivh = hex_of(iv@);
        let cth = hex_of(ct@);
        let s = out@;
        assert(s =~= ivh + seq![':'] + cth);
        let j = ivh.len() as int;
        assert(s[j] == ':');
        assert(forall|k: int| 0 <= k < j ==> s[k] == ivh[k]);
        lemma_find_char_exact(s, 0, j, ':');
        assert(forall|k: int| j + 1 <= k < s.len() ==> s[k] == cth[k - j - 1]);
        lemma_find_char_none(s, j + 1, ':');
        assert(s.take(j) =~= ivh);
        assert(s.skip(j + 1) =~= cth);
    }
    out
}

/// Open a sealed envelope under the 32-byte `key` and return the plaintext
/// bytes, or say exactly why the envelope is bad: `Format` when it does not
/// split into two ':'-separated parts, `Decode` when a part is not
/// hexadecimal, `Crypto` when the IV size or the decryption is wrong.
pub fn unseal(key: &[u8], sealed: &str) -> (r: Result<Vec<u8>, EnvelopeError>)
    requires
        key@.len() == 32,
    ensures
        match r {
            Ok(p) => unseal_model(key@, sealed@) == Ok::<Seq<u8>, EnvelopeError>(p@),
            Err(e) => unseal_model(key@, sealed@) == Err::<Seq<u8>, EnvelopeError>(e),
        },
{
    let n = sealed.unicode_len();
    let i = match find_char(sealed, 0, ':') {
        None => {
            return Err(EnvelopeError::Format);
        },
        Some(i) => i,
    };
    proof {
        lemma_find_char_from(sealed@, 0, ':');
    }
    let second = find_char(sealed, i + 1, ':');
    if second.is_some() {
        return Err(EnvelopeError::Format);
    }
    let iv_str = sealed.substring_char(0, i);
    let ct_str = sealed.substring_char(i + 1, n);
    proof {
        assert(iv_str@ =~= sealed@.take(i as int));
        assert(ct_str@ =~= sealed@.skip(i as int + 1));
    }
    let iv = match hex_decode(iv_str) {
        None => {
            return Err(EnvelopeError::Decode);
        },
        Some(v) => v,
    };
    let ct = match hex_decode(ct_str) {
        None => {
            return Err(EnvelopeError::Decode);
        },
        Some(v) => v,
    };
    if iv.len() != 16 {
        return Err(EnvelopeError::Crypto);
    }
    match cbc_decrypt(key, iv.as_slice(), ct.as_slice()) {
        None => Err(EnvelopeError::Crypto),
        Some(p) => Ok(p),
    }
}

/// The byte-wise XOR of `data` with `key` repeated over its length.
pub open spec fn xor_seq(key: Seq<u8>, data: Seq<u8>) -> Seq<u8>
    recommends
        key.len() > 0,
{
    Seq::new(data.len(), |i: int| data[i] ^ key[i % key.len() as int])
}

/// Law: the XOR stream is self-inverse. Applying it twice with the same key
/// restores the original bytes.
pub proof fn lemma_xor_involutive(key: Seq<u8>, data: Seq<u8>)
    requires
        key.len() > 0,
    ensures
        xor_seq(key, xor_seq(key, data)) == data,
{
    assert forall|i: int| 0 <= i < data.len() implies xor_seq(key, xor_seq(key, data))[i]
        == data[i] by {
        let k = key[i % key.len() as int];
        let d = data[i];
        assert((d ^ k) ^ k == d) by (bit_vector);
    };
    assert(xor_seq(key, xor_seq(key, data)) =~= data);
}

fn xor_bytes(key: &[u8], data: &[u8]) -> (r: Vec<u8>)
    requires
        key@.len() > 0,
    ensures
        r@ == xor_seq(key@, data@),
{
    let mut out: Vec<u8> = Vec::new();
    let mut i: usize = 0;
    while i < data.len()
        invariant
            key@.len() > 0,
            i <= data@.len(),
            out@.len() == i,
            forall|j: int|
                0 <= j < i ==> out@[j] == (data@[j] ^ key@[j % key@.len() as int]),
        decreases data@.len() - i,
    {
        let b = data[i] ^ key[i % key.len()];
        out.push(b);
        i += 1;
    }
    proof {
        assert(out@ =~= xor_seq(key@, data@));
    }
    out
}

/// What deobfuscation of `s` under `key` yields.
pub open spec fn deobfuscate_model(key: Seq<u8>, s: Seq<char>) -> Result<Seq<u8>, EnvelopeError> {
    if !is_hex(s) {
        Err(EnvelopeError::Decode)
    } else {
        Ok(xor_seq(key, unhex(s)))
    }
}

/// Lightweight envelope variant: XOR `data` with the repeated `key` and
/// hex-encode the result. This is obfuscation only — it hides the text from a
/// casual reader but offers no cryptographic security, and is not a
/// substitute for the block-cipher envelope. Deobfuscation under the same key
/// always restores the original bytes.
pub fn obfuscate(key: &[u8], data: &[u8]) -> (r: String)
    requires
        key@.len() > 0,
    ensures
        r@ == hex_of(xor_seq(key@, data@)),
        deobfuscate_model(key@, r@) == Ok::<Seq<u8>, EnvelopeError>(data@),
{
    let x = xor_bytes(key, data);
    let r = hex_encode(x.as_slice());
    proof {
        lemma_hex_round_trip(x@);
        lemma_xor_involutive(key@, data@);
    }
    r
}

/// Invert [`obfuscate`]: hex-decode and XOR with the repeated `key`. XOR is
/// self-inverse, so this is the same stream operation as obfuscation.
pub fn deobfuscate(key: &[u8], sealed: &str) -> (r: Result<Vec<u8>, EnvelopeError>)
    requires
        key@.len() > 0,
    ensures
        match r {
            Ok(p) => deobfuscate_model(key@, sealed@) == Ok::<Seq<u8>, EnvelopeError>(p@),
            Err(e) => deobfuscate_model(key@, sealed@) == Err::<Seq<u8>, EnvelopeError>(e),
        },
{
    match hex_decode(sealed) {
        None => Err(EnvelopeError::Decode),
        Some(b) => Ok(xor_bytes(key, b.as_slice())),
    }
}

} // verus!
