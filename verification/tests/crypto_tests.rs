use aes::cipher::generic_array::GenericArray;
use aes::cipher::{BlockEncrypt, KeyInit};
use base64::Engine;

use hollow_sync::crypto::SaveCrypto;
use hollow_sync::errors::SaveError;

const KEY: &[u8; 32] = b"UKu52ePUBwetZ9wNX88o54dnfKRu0T1l";
const HEADER: [u8; 22] = [
    0, 1, 0, 0, 0, 255, 255, 255, 255, 1, 0, 0, 0, 0, 0, 0, 0, 6, 1, 0, 0, 0,
];

fn reference_pad(data: &[u8]) -> Vec<u8> {
    let padding = 16 - (data.len() % 16);
    let mut padded = vec![padding as u8; data.len() + padding];
    padded[..data.len()].copy_from_slice(data);
    padded
}

fn reference_encrypt(data: &[u8]) -> Vec<u8> {
    let cipher = aes::Aes256::new(GenericArray::from_slice(KEY));
    let mut result = Vec::new();
    for chunk in reference_pad(data).chunks(16) {
        let mut block = GenericArray::clone_from_slice(chunk);
        cipher.encrypt_block(&mut block);
        result.extend_from_slice(&block);
    }
    result
}

fn reference_varint(mut len: usize) -> Vec<u8> {
    let mut bytes = Vec::new();
    while len >= 0x80 {
        bytes.push(((len & 0x7F) | 0x80) as u8);
        len >>= 7;
    }
    bytes.push((len & 0x7F) as u8);
    bytes
}

fn reference_wrap(payload: &[u8]) -> Vec<u8> {
    let mut out = HEADER.to_vec();
    out.extend_from_slice(&reference_varint(payload.len()));
    out.extend_from_slice(payload);
    out.push(11);
    out
}

fn reference_encode(json: &str) -> Vec<u8> {
    let encrypted = reference_encrypt(json.as_bytes());
    let b64 = base64::engine::general_purpose::STANDARD.encode(&encrypted);
    reference_wrap(b64.as_bytes())
}

#[test]
fn varint_exact_bytes() {
    assert_eq!(SaveCrypto::create_length_prefix(0), vec![0x00]);
    assert_eq!(SaveCrypto::create_length_prefix(1), vec![0x01]);
    assert_eq!(SaveCrypto::create_length_prefix(127), vec![0x7F]);
    assert_eq!(SaveCrypto::create_length_prefix(128), vec![0x80, 0x01]);
    assert_eq!(SaveCrypto::create_length_prefix(16383), vec![0xFF, 0x7F]);
    assert_eq!(SaveCrypto::create_length_prefix(16384), vec![0x80, 0x80, 0x01]);
    assert_eq!(SaveCrypto::create_length_prefix(2097151), vec![0xFF, 0xFF, 0x7F]);
}

#[test]
fn varint_round_trip_through_frame() {
    for &n in &[0usize, 1, 127, 128, 16383, 16384, 2097151] {
        let payload = vec![0x5Au8; n];
        let framed = SaveCrypto::add_save_header(&payload);
        assert_eq!(
            framed.len(),
            22 + SaveCrypto::create_length_prefix(n).len() + n + 1
        );
        let unwrapped = SaveCrypto::remove_save_header(&framed).unwrap();
        assert_eq!(unwrapped, payload);
    }
}

#[test]
fn padding_boundary_lengths() {
    let crypto = SaveCrypto::new();
    let cases = [(0usize, 16usize), (1, 16), (15, 16), (16, 32), (17, 32), (32, 48)];
    for &(n, expected) in &cases {
        let plain = vec![0xABu8; n];
        let encrypted = crypto.encrypt(&plain);
        assert_eq!(encrypted.len(), expected);
        assert!(encrypted.len() % 16 == 0 && !encrypted.is_empty());
        let decrypted = crypto.decrypt(&encrypted).unwrap();
        assert_eq!(decrypted, plain);
    }
}

#[test]
fn frame_layout_exact() {
    let framed = SaveCrypto::add_save_header(b"abc");
    let mut expected = HEADER.to_vec();
    expected.push(3);
    expected.extend_from_slice(b"abc");
    expected.push(11);
    assert_eq!(framed, expected);
}

#[test]
fn unwrap_fails_on_short_input() {
    for n in 0..=22usize {
        let data = vec![0u8; n];
        assert_eq!(
            SaveCrypto::remove_save_header(&data),
            Err(SaveError::MalformedHeader)
        );
    }
}

#[test]
fn unwrap_fails_on_unterminated_prefix() {
    let mut data = HEADER.to_vec();
    data.extend_from_slice(&[0x80, 0x81, 0xFF, 0x90, 0x80]);
    data.extend_from_slice(b"payload");
    data.push(11);
    assert_eq!(
        SaveCrypto::remove_save_header(&data),
        Err(SaveError::MalformedHeader)
    );
}

#[test]
fn unwrap_fails_when_buffer_ends_inside_prefix() {
    let mut data = HEADER.to_vec();
    data.extend_from_slice(&[0x80, 0x80]);
    assert_eq!(
        SaveCrypto::remove_save_header(&data),
        Err(SaveError::MalformedHeader)
    );
}

#[test]
fn unwrap_fails_when_payload_starts_at_end() {
    let mut data = HEADER.to_vec();
    data.push(0x00);
    assert_eq!(
        SaveCrypto::remove_save_header(&data),
        Err(SaveError::MalformedHeader)
    );
}

#[test]
fn unwrap_allows_empty_payload() {
    let framed = SaveCrypto::add_save_header(b"");
    let unwrapped = SaveCrypto::remove_save_header(&framed).unwrap();
    assert!(unwrapped.is_empty());
}

#[test]
fn decrypt_rejects_unaligned_lengths() {
    let crypto = SaveCrypto::new();
    for &n in &[1usize, 15, 17, 31, 100] {
        let data = vec![0u8; n];
        assert_eq!(crypto.decrypt(&data), Err(SaveError::InvalidLength));
    }
}

#[test]
fn json_round_trip() {
    let crypto = SaveCrypto::new();
    let json = "{\"playerData\":{\"health\":5,\"geo\":1200},\"sceneData\":{}}";
    let blob = crypto.switch_to_pc(json).unwrap();
    let back = crypto.pc_to_switch(&blob).unwrap();
    assert_eq!(back, json);
}

#[test]
fn encoder_matches_reference_pipeline() {
    let crypto = SaveCrypto::new();
    let json = "{\"slot\":1,\"completion\":42.5}";
    let blob = crypto.switch_to_pc(json).unwrap();
    assert_eq!(blob, reference_encode(json));
}

#[test]
fn decoder_reads_reference_blob() {
    let crypto = SaveCrypto::new();
    let json = "{\"abilities\":[\"dash\",\"walljump\"]}";
    let blob = reference_encode(json);
    assert_eq!(crypto.pc_to_switch(&blob).unwrap(), json);
}

#[test]
fn decode_fails_with_encoding_error_on_bad_base64() {
    let crypto = SaveCrypto::new();
    let blob = reference_wrap(b"!!!not base64???");
    assert_eq!(crypto.pc_to_switch(&blob), Err(SaveError::EncodingError));
}

#[test]
fn decode_fails_with_invalid_length_on_unaligned_ciphertext() {
    let crypto = SaveCrypto::new();
    let b64 = base64::engine::general_purpose::STANDARD.encode([1u8, 2, 3, 4, 5, 6, 7, 8]);
    let blob = reference_wrap(b64.as_bytes());
    assert_eq!(crypto.pc_to_switch(&blob), Err(SaveError::InvalidLength));
}

#[test]
fn decode_fails_with_utf8_error_on_binary_plaintext() {
    let crypto = SaveCrypto::new();
    let encrypted = reference_encrypt(&[0xFF, 0xFE, 0x80, 0x00]);
    let b64 = base64::engine::general_purpose::STANDARD.encode(&encrypted);
    let blob = reference_wrap(b64.as_bytes());
    assert_eq!(crypto.pc_to_switch(&blob), Err(SaveError::Utf8Error));
}

#[test]
fn lenient_padding_keeps_oversized_pad_value() {
    // A foreign ciphertext whose decrypted last byte exceeds the buffer
    // length: nothing is trimmed and nothing crashes.
    let crypto = SaveCrypto::new();
    let cipher = aes::Aes256::new(GenericArray::from_slice(KEY));
    let plain_block = [0x41u8, 0x41, 0x41, 0x41, 0x41, 0x41, 0x41, 0x41, 0x41, 0x41, 0x41, 0x41,
        0x41, 0x41, 0x41, 0xFF];
    let mut block = GenericArray::clone_from_slice(&plain_block);
    cipher.encrypt_block(&mut block);
    let decrypted = crypto.decrypt(block.as_slice()).unwrap();
    assert_eq!(decrypted, plain_block.to_vec());
}

#[test]
fn error_messages_name_each_failure() {
    assert_eq!(
        SaveError::InvalidLength.message(),
        "Invalid encrypted data length"
    );
    assert_eq!(SaveError::MalformedHeader.message(), "Invalid save header format");
    assert_eq!(SaveError::EncodingError.message(), "Invalid base64 save payload");
    assert_eq!(
        SaveError::Utf8Error.message(),
        "Decrypted save data is not valid UTF-8"
    );
    assert_eq!(SaveError::IoError.message(), "File could not be read or written");
    assert_eq!(SaveError::ConfigurationError.message(), "Save sync not configured");
    assert_eq!(
        SaveError::NoSaveFound.message(),
        "No save files found at configured paths"
    );
    assert_eq!(SaveError::InvalidDirection.message(), "Invalid sync direction");
}
