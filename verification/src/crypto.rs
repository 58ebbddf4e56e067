//! The binary transcoding engine: fixed-key block cipher, length-prefixed
//! framing, and the transcoder between the two platform encodings.
//!
//! An encoded save blob is laid out as
//! `fixed 22-byte header ∥ base-128 varint length ∥ base64 ciphertext ∥ 0x0b`.
//! The cipher pads to whole 16-byte blocks and encrypts each block
//! independently.

use vstd::prelude::*;
use vstd::slice::{slice_index_get, slice_subrange, slice_to_vec};

use aes::cipher::generic_array::GenericArray;
use aes::cipher::{BlockDecrypt, BlockEncrypt, KeyInit};
use base64::Engine;

use crate::errors::SaveError;

verus! {

broadcast use vstd::utf8::encode_utf8_valid_utf8, vstd::utf8::encode_utf8_decode_utf8;

/// Terminator byte that closes every frame.
pub const TERMINATOR: u8 = 11;

/// The fixed magic header that opens every frame.
pub open spec fn save_header() -> Seq<u8> {
    seq![
        0u8, 1u8, 0u8, 0u8, 0u8, 255u8, 255u8, 255u8, 255u8, 1u8, 0u8,
        0u8, 0u8, 0u8, 0u8, 0u8, 0u8, 6u8, 1u8, 0u8, 0u8, 0u8,
    ]
}

/// The fixed magic header as a vector.
fn header_bytes() -> (r: Vec<u8>)
    ensures
        r@ == save_header(),
{
    let mut v: Vec<u8> = Vec::new();
    v.push(0u8);
    v.push(1u8);
    v.push(0u8);
    v.push(0u8);
    v.push(0u8);
    v.push(255u8);
    v.push(255u8);
    v.push(255u8);
    v.push(255u8);
    v.push(1u8);
    v.push(0u8);
    v.push(0u8);
    v.push(0u8);
    v.push(0u8);
    v.push(0u8);
    v.push(0u8);
    v.push(0u8);
    v.push(6u8);
    v.push(1u8);
    v.push(0u8);
    v.push(0u8);
    v.push(0u8);
    proof {
        assert(v@ =~= save_header());
    }
    v
}

/// Base-128 varint encoding of `n`: little-endian groups of 7 bits, with the
/// high bit set on every byte except the last.
pub open spec fn varint_of(n: nat) -> Seq<u8>
    decreases n,
{
    if n < 0x80 {
        seq![n as u8]
    } else {
        seq![(n % 0x80 + 0x80) as u8] + varint_of(n / 0x80)
    }
}

/// A varint is never empty, ends in a byte with the high bit clear, and has
/// the high bit set on every earlier byte.
pub proof fn lemma_varint_shape(n: nat)
    ensures
        varint_of(n).len() >= 1,
        varint_of(n).last() < 0x80,
        forall|j: int| 0 <= j < varint_of(n).len() - 1 ==> varint_of(n)[j] >= 0x80,
    decreases n,
{
    if n >= 0x80 {
        lemma_varint_shape(n / 0x80);
    }
}

/// 0x80 raised to the power `k`: one varint byte covers a factor of 0x80.
pub open spec fn pow128(k: nat) -> nat
    decreases k,
{
    if k == 0 {
        1
    } else {
        0x80 * pow128((k - 1) as nat)
    }
}

/// Values below `0x80^k` encode in at most `k` varint bytes.
pub proof fn lemma_varint_len_bounded(n: nat, k: nat)
    requires
        k >= 1,
        n < pow128(k),
    ensures
        varint_of(n).len() <= k,
    decreases k,
{
    if n >= 0x80 {
        assert(pow128(k) == 0x80 * pow128((k - 1) as nat));
        assert(n / 0x80 < pow128((k - 1) as nat)) by (nonlinear_arith)
            requires
                n < 0x80 * pow128((k - 1) as nat),
        ;
        assert(k >= 2) by {
            if k == 1 {
                assert(pow128(0nat) == 1);
                assert(pow128(1nat) == 0x80);
            }
        }
        lemma_varint_len_bounded(n / 0x80, (k - 1) as nat);
    }
}

/// Lengths below 2^35 (the largest the frame format supports) encode in at
/// most five varint bytes.
pub proof fn lemma_varint_len_five(n: nat)
    requires
        n < 0x8_0000_0000,
    ensures
        varint_of(n).len() <= 5,
{
    assert(pow128(0nat) == 1);
    assert(pow128(1nat) == 0x80);
    assert(pow128(2nat) == 0x4000);
    assert(pow128(3nat) == 0x20_0000);
    assert(pow128(4nat) == 0x1000_0000);
    assert(pow128(5nat) == 0x8_0000_0000);
    lemma_varint_len_bounded(n, 5);
}

/// The integer a varint encodes: seven low bits per byte, little-endian.
pub open spec fn varint_value(s: Seq<u8>) -> nat
    decreases s.len(),
{
    if s.len() == 0 {
        0
    } else {
        (s[0] % 0x80) as nat + 0x80 * varint_value(s.skip(1))
    }
}

/// Decoding a varint gives back exactly the length that was encoded.
pub proof fn lemma_varint_round_trip(n: nat)
    ensures
        varint_value(varint_of(n)) == n,
    decreases n,
{
    assert(varint_value(Seq::<u8>::empty()) == 0);
    if n < 0x80 {
        assert(varint_of(n).skip(1) =~= Seq::<u8>::empty());
        assert(varint_of(n)[0] == n as u8);
    } else {
        lemma_varint_round_trip(n / 0x80);
        assert(varint_of(n).skip(1) =~= varint_of(n / 0x80));
        assert(varint_of(n)[0] == (n % 0x80 + 0x80) as u8);
    }
}

/// Scan for the end of a varint length prefix in `s`, starting at `i`: stop
/// at the first byte with the high bit clear, give up after five bytes or at
/// the end of the buffer. Returns the number of prefix bytes consumed.
pub open spec fn scan_prefix(s: Seq<u8>, i: nat) -> Option<nat>
    decreases 5 - i,
{
    if i >= 5 {
        None
    } else if i >= s.len() {
        None
    } else if s[i as int] < 0x80 {
        Some((i + 1) as nat)
    } else {
        scan_prefix(s, i + 1)
    }
}

/// What `remove_save_header` extracts: `None` where the frame is malformed,
/// otherwise the bytes between the length prefix and the terminator.
pub open spec fn unwrap_spec(data: Seq<u8>) -> Option<Seq<u8>> {
    if data.len() <= 22 {
        None
    } else {
        match scan_prefix(data.skip(22), 0) {
            None => None,
            Some(k) => if 22 + k >= data.len() {
                None
            } else {
                Some(data.subrange(22 + k as int, data.len() - 1))
            },
        }
    }
}

/// A complete frame around `payload`.
pub open spec fn frame_of(payload: Seq<u8>) -> Seq<u8> {
    save_header() + varint_of(payload.len()) + payload + seq![TERMINATOR]
}

/// Scanning a buffer that starts with a well-shaped varint of `vlen` bytes
/// finds exactly those bytes.
proof fn lemma_scan_finds_varint(s: Seq<u8>, vlen: nat, i: nat)
    requires
        1 <= vlen <= 5,
        vlen <= s.len(),
        i < vlen,
        forall|j: int| 0 <= j < vlen - 1 ==> s[j] >= 0x80,
        s[vlen - 1] < 0x80,
    ensures
        scan_prefix(s, i) == Some(vlen),
    decreases vlen - i,
{
    if i < vlen - 1 {
        lemma_scan_finds_varint(s, vlen, i + 1);
    }
}

/// Unwrapping a wrapped payload gives the payload back, for every payload the
/// five-byte varint limit admits.
pub proof fn lemma_unwrap_wrap(payload: Seq<u8>)
    requires
        payload.len() < 0x8_0000_0000,
    ensures
        unwrap_spec(frame_of(payload)) == Some(payload),
{
    let v = varint_of(payload.len());
    lemma_varint_shape(payload.len());
    lemma_varint_len_five(payload.len());
    let data = frame_of(payload);
    let s = data.skip(22);
    assert(s =~= v + payload + seq![TERMINATOR]);
    assert(forall|j: int| 0 <= j < v.len() - 1 ==> s[j] >= 0x80);
    assert(s[v.len() - 1] < 0x80);
    lemma_scan_finds_varint(s, v.len(), 0);
    assert(data.subrange(22 + v.len() as int, data.len() - 1) =~= payload);
}

/// The fixed, public 32-byte cipher key: the ASCII bytes of
/// `"UKu52ePUBwetZ9wNX88o54dnfKRu0T1l"`. It exists for format
/// compatibility, not confidentiality.
pub open spec fn cipher_key() -> Seq<u8> {
    seq![
        85u8, 75u8, 117u8, 53u8, 50u8, 101u8, 80u8, 85u8, 66u8, 119u8, 101u8, 116u8, 90u8, 57u8,
        119u8, 78u8, 88u8, 56u8, 56u8, 111u8, 53u8, 52u8, 100u8, 110u8, 102u8, 75u8, 82u8, 117u8,
        48u8, 84u8, 49u8, 108u8,
    ]
}

/// The fixed cipher key as a vector.
fn cipher_key_vec() -> (r: Vec<u8>)
    ensures
        r@ == cipher_key(),
        r@.len() == 32,
{
    let mut v: Vec<u8> = Vec::new();
    v.push(85u8);
    v.push(75u8);
    v.push(117u8);
    v.push(53u8);
    v.push(50u8);
    v.push(101u8);
    v.push(80u8);
    v.push(85u8);
    v.push(66u8);
    v.push(119u8);
    v.push(101u8);
    v.push(116u8);
    v.push(90u8);
    v.push(57u8);
    v.push(119u8);
    v.push(78u8);
    v.push(88u8);
    v.push(56u8);
    v.push(56u8);
    v.push(111u8);
    v.push(53u8);
    v.push(52u8);
    v.push(100u8);
    v.push(110u8);
    v.push(102u8);
    v.push(75u8);
    v.push(82u8);
    v.push(117u8);
    v.push(48u8);
    v.push(84u8);
    v.push(49u8);
    v.push(108u8);
    proof {
        assert(v@ =~= cipher_key());
    }
    v
}

/// What AES-256 block encryption returns for a key and one block; the
/// result is fixed by the arguments alone.
pub uninterp spec fn aes256_encrypted_block_of(key: Seq<u8>, block: Seq<u8>) -> Seq<u8>;

/// What AES-256 block decryption returns for a key and one block.
pub uninterp spec fn aes256_decrypted_block_of(key: Seq<u8>, block: Seq<u8>) -> Seq<u8>;

/// AES-256 block encryption, totalized to a whole block: the real cipher
/// always returns exactly 16 bytes, so the fallback branch is never what an
/// actual call produces.
pub open spec fn enc_block(key: Seq<u8>, block: Seq<u8>) -> Seq<u8> {
    let r = aes256_encrypted_block_of(key, block);
    if r.len() == 16 {
        r
    } else {
        Seq::new(16, |i: int| 0u8)
    }
}

/// Relies on aes::Aes256 (`new` and `encrypt_block`): enciphers one 16-byte
/// block under a 32-byte key; the result is a whole block determined by key
/// and block alone.
#[verifier::external_body]
fn aes256_encrypt_block(key: &[u8], block: &[u8]) -> (r: Vec<u8>)
    requires
        key@.len() == 32,
        block@.len() == 16,
    ensures
        r@ == aes256_encrypted_block_of(key@, block@),
        r@.len() == 16,
{
    let cipher = aes::Aes256::new(GenericArray::from_slice(key));
    let mut b = GenericArray::clone_from_slice(block);
    cipher.encrypt_block(&mut b);
    b.to_vec()
}

/// Relies on aes::Aes256 (`new` and `decrypt_block`): deciphers one 16-byte
/// block under a 32-byte key; block decryption inverts block encryption
/// under the same key.
#[verifier::external_body]
fn aes256_decrypt_block(key: &[u8], block: &[u8]) -> (r: Vec<u8>)
    requires
        key@.len() == 32,
        block@.len() == 16,
    ensures
        r@ == aes256_decrypted_block_of(key@, block@),
        r@.len() == 16,
        forall|p: Seq<u8>| p.len() == 16 && block@ == #[trigger] enc_block(key@, p) ==> r@ == p,
{
    let cipher = aes::Aes256::new(GenericArray::from_slice(key));
    let mut b = GenericArray::clone_from_slice(block);
    cipher.decrypt_block(&mut b);
    b.to_vec()
}

/// Pad length for a plaintext of `n` bytes: between 1 and 16, bringing the
/// total to a whole number of blocks. A block-aligned input still gains a
/// full pad block.
pub open spec fn pad_len(n: nat) -> nat {
    (16 - n % 16) as nat
}

/// The plaintext with its padding: `pad_len(n)` bytes, each holding the pad
/// length itself.
pub open spec fn padded_of(data: Seq<u8>) -> Seq<u8> {
    data + Seq::new(pad_len(data.len()), |i: int| pad_len(data.len()) as u8)
}

/// Block-by-block encryption of a block-aligned buffer under the fixed key.
pub open spec fn encrypted_of(s: Seq<u8>) -> Seq<u8>
    decreases s.len(),
{
    if s.len() < 16 {
        Seq::empty()
    } else {
        enc_block(cipher_key(), s.take(16)) + encrypted_of(s.skip(16))
    }
}

/// Block-by-block decryption of a block-aligned buffer under the fixed key.
pub open spec fn decrypted_of(s: Seq<u8>) -> Seq<u8>
    decreases s.len(),
{
    if s.len() < 16 {
        Seq::empty()
    } else {
        aes256_decrypted_block_of(cipher_key(), s.take(16)) + decrypted_of(s.skip(16))
    }
}

/// Lenient pad removal: drop as many trailing bytes as the last byte says,
/// unless that count exceeds the buffer, in which case nothing is trimmed.
/// The bytes dropped are not checked against the pad value.
pub open spec fn unpadded_of(s: Seq<u8>) -> Seq<u8> {
    if s.len() == 0 {
        s
    } else if s.last() as nat <= s.len() {
        s.take(s.len() - s.last() as nat)
    } else {
        s
    }
}

/// Removing the padding that `padded_of` added recovers the plaintext
/// exactly, whatever its length.
pub proof fn lemma_unpad_pad(data: Seq<u8>)
    ensures
        unpadded_of(padded_of(data)) == data,
{
    let p = pad_len(data.len());
    let padded = padded_of(data);
    assert(padded.last() == p as u8);
    assert(padded.take(padded.len() - p) =~= data);
}

/// Appending one block to a block-aligned buffer appends its encryption.
proof fn lemma_encrypted_of_snoc(s: Seq<u8>, b: Seq<u8>)
    requires
        s.len() % 16 == 0,
        b.len() == 16,
    ensures
        encrypted_of(s + b) == encrypted_of(s) + enc_block(cipher_key(), b),
    decreases s.len(),
{
    if s.len() == 0 {
        assert((s + b).take(16) =~= b);
        assert((s + b).skip(16) =~= Seq::<u8>::empty());
        assert(encrypted_of(Seq::<u8>::empty()) =~= Seq::<u8>::empty());
        assert(encrypted_of(s) + enc_block(cipher_key(), b) =~= enc_block(cipher_key(), b));
        assert(enc_block(cipher_key(), b) + Seq::<u8>::empty() =~= enc_block(cipher_key(), b));
    } else {
        assert((s + b).take(16) =~= s.take(16));
        assert((s + b).skip(16) =~= s.skip(16) + b);
        lemma_encrypted_of_snoc(s.skip(16), b);
        assert(enc_block(cipher_key(), s.take(16)) + (encrypted_of(s.skip(16)) + enc_block(
            cipher_key(),
            b,
        )) =~= (enc_block(cipher_key(), s.take(16)) + encrypted_of(s.skip(16))) + enc_block(
            cipher_key(),
            b,
        ));
    }
}

/// Appending one block to a block-aligned buffer appends its decryption.
proof fn lemma_decrypted_of_snoc(s: Seq<u8>, b: Seq<u8>)
    requires
        s.len() % 16 == 0,
        b.len() == 16,
    ensures
        decrypted_of(s + b) == decrypted_of(s) + aes256_decrypted_block_of(cipher_key(), b),
    decreases s.len(),
{
    if s.len() == 0 {
        assert((s + b).take(16) =~= b);
        assert((s + b).skip(16) =~= Seq::<u8>::empty());
        assert(decrypted_of(Seq::<u8>::empty()) =~= Seq::<u8>::empty());
        assert(decrypted_of(s) + aes256_decrypted_block_of(cipher_key(), b)
            =~= aes256_decrypted_block_of(cipher_key(), b));
        assert(aes256_decrypted_block_of(cipher_key(), b) + Seq::<u8>::empty()
            =~= aes256_decrypted_block_of(cipher_key(), b));
    } else {
        assert((s + b).take(16) =~= s.take(16));
        assert((s + b).skip(16) =~= s.skip(16) + b);
        lemma_decrypted_of_snoc(s.skip(16), b);
        assert(aes256_decrypted_block_of(cipher_key(), s.take(16)) + (decrypted_of(s.skip(16))
            + aes256_decrypted_block_of(cipher_key(), b)) =~= (aes256_decrypted_block_of(
            cipher_key(),
            s.take(16),
        ) + decrypted_of(s.skip(16))) + aes256_decrypted_block_of(cipher_key(), b));
    }
}

/// Encrypting a block-aligned buffer keeps its length.
pub proof fn lemma_encrypted_of_len(s: Seq<u8>)
    requires
        s.len() % 16 == 0,
    ensures
        encrypted_of(s).len() == s.len(),
    decreases s.len(),
{
    if s.len() >= 16 {
        lemma_encrypted_of_len(s.skip(16));
    }
}

/// Each 16-byte slice of an encrypted buffer is the encryption of the
/// matching slice of the input.
proof fn lemma_encrypted_of_block(s: Seq<u8>, i: int)
    requires
        s.len() % 16 == 0,
        0 <= i,
        i % 16 == 0,
        i + 16 <= s.len(),
    ensures
        encrypted_of(s).subrange(i, i + 16) == enc_block(cipher_key(), s.subrange(i, i + 16)),
    decreases s.len(),
{
    lemma_encrypted_of_len(s);
    if i == 0 {
        assert(s.subrange(0, 16) =~= s.take(16));
        assert(encrypted_of(s).subrange(0, 16) =~= enc_block(cipher_key(), s.take(16)));
    } else {
        lemma_encrypted_of_len(s.skip(16));
        lemma_encrypted_of_block(s.skip(16), i - 16);
        assert(encrypted_of(s).subrange(i, i + 16) =~= encrypted_of(s.skip(16)).subrange(
            i - 16,
            i,
        ));
        assert(s.subrange(i, i + 16) =~= s.skip(16).subrange(i - 16, i));
    }
}

/// Mirror of `scan_prefix` over a byte slice.
fn scan_prefix_exec(s: &[u8], i: usize) -> (r: Option<usize>)
    requires
        i <= 5,
    ensures
        r is Some <==> scan_prefix(s@, i as nat) is Some,
        r matches Some(v) ==> scan_prefix(s@, i as nat) == Some(v as nat) && i < v <= 5,
    decreases 5 - i,
{
    if i >= 5 {
        None
    } else if i >= s.len() {
        None
    } else if *slice_index_get(s, i) < 0x80 {
        Some(i + 1)
    } else {
        scan_prefix_exec(s, i + 1)
    }
}

/// What standard padded base64 encoding returns for `bytes`, as ASCII
/// bytes; fixed by the input alone.
pub uninterp spec fn base64_of(bytes: Seq<u8>) -> Seq<u8>;

/// Relies on base64's `STANDARD` engine `encode`: the canonical padded
/// encoding, four output bytes for every started group of three input
/// bytes, determined by the input alone.
#[verifier::external_body]
fn base64_encode(data: &[u8]) -> (r: Vec<u8>)
    requires
        4 * ((data@.len() + 2) / 3) <= usize::MAX,
    ensures
        r@ == base64_of(data@),
        r@.len() == 4 * ((data@.len() + 2) / 3),
{
    base64::engine::general_purpose::STANDARD.encode(data).into_bytes()
}

/// Relies on base64's `STANDARD` engine `decode`: it succeeds exactly on
/// canonical padded encodings (bad alphabet bytes, non-canonical padding,
/// and nonzero trailing bits are rejected), inverts `encode`, and base64
/// encoding is injective.
#[verifier::external_body]
fn base64_decode(data: &[u8]) -> (r: Option<Vec<u8>>)
    ensures
        r matches Some(d) ==> data@ == base64_of(d@),
        r matches Some(d) ==> forall|y: Seq<u8>| data@ == #[trigger] base64_of(y) ==> y == d@,
        forall|y: Seq<u8>| data@ == #[trigger] base64_of(y) ==> r is Some,
{
    base64::engine::general_purpose::STANDARD.decode(data).ok()
}

/// Relies on String::from_utf8: it succeeds exactly on valid UTF-8 and the
/// string holds the characters those bytes encode.
#[verifier::external_body]
fn bytes_to_string(bytes: Vec<u8>) -> (r: Option<String>)
    ensures
        r matches Some(s) ==> vstd::utf8::valid_utf8(bytes@) && s@ == vstd::utf8::decode_utf8(
            bytes@,
        ),
        r is None ==> !vstd::utf8::valid_utf8(bytes@),
{
    String::from_utf8(bytes).ok()
}

/// The complete encoded (switch-side) form of a JSON text: its UTF-8 bytes,
/// padded and encrypted, base64-encoded, and wrapped in a frame.
pub open spec fn switch_form_of(json: Seq<char>) -> Seq<u8> {
    frame_of(base64_of(encrypted_of(padded_of(vstd::utf8::encode_utf8(json)))))
}

/// What decoding an encoded save blob yields, step by step: strip the
/// frame, undo the base64 text encoding, decrypt and unpad, and read the
/// result as UTF-8 text. Each step's failure is its own error.
pub open spec fn raw_form_of(data: Seq<u8>) -> Result<Seq<char>, SaveError> {
    match unwrap_spec(data) {
        None => Err(SaveError::MalformedHeader),
        Some(payload) => if !(exists|y: Seq<u8>| payload == #[trigger] base64_of(y)) {
            Err(SaveError::EncodingError)
        } else {
            let y = choose|y: Seq<u8>| payload == #[trigger] base64_of(y);
            if y.len() % 16 != 0 {
                Err(SaveError::InvalidLength)
            } else {
                let plain = unpadded_of(decrypted_of(y));
                if !vstd::utf8::valid_utf8(plain) {
                    Err(SaveError::Utf8Error)
                } else {
                    Ok(vstd::utf8::decode_utf8(plain))
                }
            }
        },
    }
}

/// An encoded blob built by the encoder decomposes as its frame promises:
/// the frame unwraps to the base64 payload, and the ciphertext under it is
/// block-aligned.
proof fn lemma_switch_form_parts(json: Seq<char>, data: Seq<u8>)
    requires
        data.len() < 0x8_0000_0000,
        data == switch_form_of(json),
    ensures
        unwrap_spec(data) == Some(
            base64_of(encrypted_of(padded_of(vstd::utf8::encode_utf8(json)))),
        ),
        encrypted_of(padded_of(vstd::utf8::encode_utf8(json))).len() % 16 == 0,
{
    let u = vstd::utf8::encode_utf8(json);
    let ct = encrypted_of(padded_of(u));
    let p = base64_of(ct);
    lemma_varint_shape(p.len());
    assert(data.len() == 22 + varint_of(p.len()).len() + p.len() + 1);
    lemma_unwrap_wrap(p);
    assert(padded_of(u).len() % 16 == 0);
    lemma_encrypted_of_len(padded_of(u));
}

/// A stateless engine for the fixed-key save transcoding.
pub struct SaveCrypto {}

impl SaveCrypto {
    /// A fresh engine; it carries no state, every operation is a pure
    /// function of its input.
    pub fn new() -> (r: Self) {
        SaveCrypto {}
    }

    /// Pad `data` to whole 16-byte blocks and encrypt each block
    /// independently under the fixed key. The result is always a positive
    /// multiple of 16 bytes long.
    pub fn encrypt(&self, data: &[u8]) -> (r: Vec<u8>)
        ensures
            r@ == encrypted_of(padded_of(data@)),
            r@.len() == data@.len() + pad_len(data@.len()),
            r@.len() % 16 == 0,
            r@.len() > 0,
    {
        let padding: usize = 16 - (data.len() % 16);
        let pad_byte: u8 = padding as u8;
        let mut padded: Vec<u8> = slice_to_vec(data);
        let mut j: usize = 0;
        while j < padding
            invariant
                j <= padding,
                padding == pad_len(data@.len()),
                pad_byte == pad_len(data@.len()) as u8,
                padded@ == data@ + Seq::new(j as nat, |i: int| pad_byte),
            decreases padding - j,
        {
            proof {
                assert(padded@.push(pad_byte) =~= data@ + Seq::new((j + 1) as nat, |i: int| pad_byte));
            }
            padded.push(pad_byte);
            j = j + 1;
        }
        proof {
            assert(padded@ =~= padded_of(data@));
        }
        let key = cipher_key_vec();
        let mut result: Vec<u8> = Vec::new();
        let mut i: usize = 0;
        while i < padded.len()
            invariant
                i % 16 == 0,
                i <= padded@.len(),
                padded@.len() % 16 == 0,
                padded@ == padded_of(data@),
                key@ == cipher_key(),
                key@.len() == 32,
                result@ == encrypted_of(padded@.take(i as int)),
                result@.len() == i,
            decreases padded@.len() - i,
        {
            assert(i + 16 <= padded@.len());
            let block = slice_subrange(padded.as_slice(), i, i + 16);
            let enc = aes256_encrypt_block(key.as_slice(), block);
            proof {
                lemma_encrypted_of_snoc(padded@.take(i as int), block@);
                assert(padded@.take(i as int) + block@ =~= padded@.take(i + 16));
            }
            result.extend_from_slice(enc.as_slice());
            i = i + 16;
        }
        proof {
            assert(padded@.take(padded@.len() as int) =~= padded@);
        }
        result
    }

    /// Decrypt a buffer block by block under the fixed key, then leniently
    /// trim the padding the last byte describes. Fails with `InvalidLength`
    /// exactly when the input is not a whole number of blocks. Decrypting
    /// what `encrypt` produced recovers the plaintext.
    pub fn decrypt(&self, data: &[u8]) -> (r: Result<Vec<u8>, SaveError>)
        ensures
            r is Err <==> data@.len() % 16 != 0,
            r matches Err(e) ==> e == SaveError::InvalidLength,
            r matches Ok(out) ==> out@ == unpadded_of(decrypted_of(data@)),
            r matches Ok(out) ==> forall|x: Seq<u8>|
                x.len() % 16 == 0 && data@ == #[trigger] encrypted_of(x) ==> out@ == unpadded_of(x),
    {
        if data.len() % 16 != 0 {
            return Err(SaveError::InvalidLength);
        }
        let key = cipher_key_vec();
        let mut result: Vec<u8> = Vec::new();
        let mut i: usize = 0;
        while i < data.len()
            invariant
                i % 16 == 0,
                i <= data@.len(),
                data@.len() % 16 == 0,
                key@ == cipher_key(),
                key@.len() == 32,
                result@ == decrypted_of(data@.take(i as int)),
                forall|x: Seq<u8>|
                    x.len() % 16 == 0 && data@ == #[trigger] encrypted_of(x) ==> result@
                        == x.take(i as int),
            decreases data@.len() - i,
        {
            assert(i + 16 <= data@.len());
            let block = slice_subrange(data, i, i + 16);
            let dec = aes256_decrypt_block(key.as_slice(), block);
            proof {
                lemma_decrypted_of_snoc(data@.take(i as int), block@);
                assert(data@.take(i as int) + block@ =~= data@.take(i + 16));
                assert forall|x: Seq<u8>|
                    x.len() % 16 == 0 && data@ == #[trigger] encrypted_of(x) implies result@
                    + dec@ == x.take(i + 16) by {
                    lemma_encrypted_of_len(x);
                    lemma_encrypted_of_block(x, i as int);
                    assert(block@ =~= encrypted_of(x).subrange(i as int, i + 16));
                    assert(dec@ == x.subrange(i as int, i + 16));
                    assert(x.take(i as int) + x.subrange(i as int, i + 16) =~= x.take(i + 16));
                }
            }
            result.extend_from_slice(dec.as_slice());
            i = i + 16;
        }
        proof {
            assert(data@.take(data@.len() as int) =~= data@);
        }
        let ghost pre_trim = result@;
        if result.len() > 0 {
            let last = result[result.len() - 1];
            if (last as usize) <= result.len() {
                let new_len = result.len() - (last as usize);
                result.truncate(new_len);
                proof {
                    assert(result@ =~= unpadded_of(pre_trim));
                }
            }
        }
        proof {
            assert(result@ =~= unpadded_of(pre_trim));
            assert forall|x: Seq<u8>|
                x.len() % 16 == 0 && data@ == #[trigger] encrypted_of(x) implies result@
                == unpadded_of(x) by {
                lemma_encrypted_of_len(x);
            }
        }
        Ok(result)
    }

    /// Base-128 varint encoding of `length`.
    pub fn create_length_prefix(length: usize) -> (r: Vec<u8>)
        ensures
            r@ == varint_of(length as nat),
    {
        let mut bytes: Vec<u8> = Vec::new();
        let mut len: usize = length;
        while len >= 0x80
            invariant
                bytes@ + varint_of(len as nat) == varint_of(length as nat),
            decreases len,
        {
            let b: u8 = ((len % 0x80) + 0x80) as u8;
            proof {
                assert(bytes@.push(b) + varint_of((len / 0x80) as nat) =~= bytes@ + varint_of(
                    len as nat,
                ));
            }
            bytes.push(b);
            len = len / 0x80;
        }
        let last: u8 = (len % 0x80) as u8;
        proof {
            assert(bytes@.push(last) =~= bytes@ + varint_of(len as nat));
        }
        bytes.push(last);
        bytes
    }

    /// Wrap `data` in a frame: fixed header, varint length prefix, the data
    /// itself, and the terminator byte.
    pub fn add_save_header(data: &[u8]) -> (r: Vec<u8>)
        ensures
            r@ == frame_of(data@),
    {
        let length_bytes = Self::create_length_prefix(data.len());
        let mut result = header_bytes();
        result.extend_from_slice(length_bytes.as_slice());
        result.extend_from_slice(data);
        result.push(TERMINATOR);
        proof {
            assert(result@ =~= frame_of(data@));
        }
        result
    }

    /// Strip the frame around a payload. Fails with `MalformedHeader` when
    /// the input is no longer than the fixed header, when the length prefix
    /// does not terminate within five bytes (or the buffer ends first), or
    /// when the payload would start at or beyond the end of the buffer. The
    /// terminator byte is discarded without validation.
    pub fn remove_save_header(data: &[u8]) -> (r: Result<Vec<u8>, SaveError>)
        ensures
            r is Ok <==> unwrap_spec(data@) is Some,
            r matches Ok(v) ==> Some(v@) == unwrap_spec(data@),
            r matches Err(e) ==> e == SaveError::MalformedHeader,
    {
        if data.len() <= 22 {
            return Err(SaveError::MalformedHeader);
        }
        let tail = slice_subrange(data, 22, data.len());
        proof {
            assert(tail@ =~= data@.skip(22));
        }
        match scan_prefix_exec(tail, 0) {
            None => Err(SaveError::MalformedHeader),
            Some(k) => {
                let start = 22 + k;
                if start >= data.len() {
                    Err(SaveError::MalformedHeader)
                } else {
                    Ok(slice_to_vec(slice_subrange(data, start, data.len() - 1)))
                }
            },
        }
    }

    /// Decode an encoded save blob to its JSON text: strip the frame,
    /// undo the base64 text encoding, decrypt and unpad, and read the
    /// result as UTF-8. The first failing step names the error, and
    /// decoding what `switch_to_pc` encoded gives the original text back.
    pub fn pc_to_switch(&self, pc_save_data: &[u8]) -> (r: Result<String, SaveError>)
        ensures
            r matches Ok(s) ==> raw_form_of(pc_save_data@) matches Ok(j) && s@ == j,
            r matches Err(e) ==> raw_form_of(pc_save_data@) matches Err(e2) && e == e2,
            forall|json: Seq<char>|
                pc_save_data@.len() < 0x8_0000_0000 && pc_save_data@ == #[trigger] switch_form_of(
                    json,
                ) ==> (r matches Ok(s) && s@ == json),
    {
        let ghost g_data = pc_save_data@;
        let without_header = match Self::remove_save_header(pc_save_data) {
            Ok(v) => v,
            Err(e) => {
                proof {
                    assert forall|json: Seq<char>|
                        g_data.len() < 0x8_0000_0000 && g_data == #[trigger] switch_form_of(
                            json,
                        ) implies false by {
                        lemma_switch_form_parts(json, g_data);
                    }
                }
                return Err(e);
            },
        };
        let decoded = match base64_decode(without_header.as_slice()) {
            Some(d) => d,
            None => {
                proof {
                    assert forall|json: Seq<char>|
                        g_data.len() < 0x8_0000_0000 && g_data == #[trigger] switch_form_of(
                            json,
                        ) implies false by {
                        lemma_switch_form_parts(json, g_data);
                    }
                }
                return Err(SaveError::EncodingError);
            },
        };
        proof {
            assert(exists|y: Seq<u8>| without_header@ == #[trigger] base64_of(y));
            let y = choose|y: Seq<u8>| without_header@ == #[trigger] base64_of(y);
            assert(y == decoded@);
        }
        let json_data = match self.decrypt(decoded.as_slice()) {
            Ok(v) => v,
            Err(e) => {
                proof {
                    assert forall|json: Seq<char>|
                        g_data.len() < 0x8_0000_0000 && g_data == #[trigger] switch_form_of(
                            json,
                        ) implies false by {
                        lemma_switch_form_parts(json, g_data);
                    }
                }
                return Err(e);
            },
        };
        match bytes_to_string(json_data) {
            Some(s) => {
                proof {
                    assert forall|json: Seq<char>|
                        g_data.len() < 0x8_0000_0000 && g_data == #[trigger] switch_form_of(
                            json,
                        ) implies s@ == json by {
                        lemma_switch_form_parts(json, g_data);
                        lemma_unpad_pad(vstd::utf8::encode_utf8(json));
                    }
                }
                Ok(s)
            },
            None => {
                proof {
                    assert forall|json: Seq<char>|
                        g_data.len() < 0x8_0000_0000 && g_data == #[trigger] switch_form_of(
                            json,
                        ) implies false by {
                        lemma_switch_form_parts(json, g_data);
                        lemma_unpad_pad(vstd::utf8::encode_utf8(json));
                    }
                }
                Err(SaveError::Utf8Error)
            },
        }
    }

    /// Encode a JSON save text to the on-disk blob: encrypt its UTF-8
    /// bytes, base64-encode the ciphertext, and wrap it in a frame.
    pub fn switch_to_pc(&self, json_string: &str) -> (r: Result<Vec<u8>, SaveError>)
        requires
            4 * ((vstd::utf8::encode_utf8(json_string@).len() + 18) / 3) <= usize::MAX,
        ensures
            r matches Ok(v) && v@ == switch_form_of(json_string@),
    {
        let json_data = json_string.as_bytes();
        let encrypted_data = self.encrypt(json_data);
        proof {
            assert(encrypted_data@.len() + 2 <= vstd::utf8::encode_utf8(json_string@).len() + 18);
            assert((encrypted_data@.len() + 2) / 3 <= (vstd::utf8::encode_utf8(json_string@).len()
                + 18) / 3);
        }
        let base64_data = base64_encode(encrypted_data.as_slice());
        Ok(Self::add_save_header(base64_data.as_slice()))
    }
}

} // verus!
