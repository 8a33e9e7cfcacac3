use soc_hal::aes::{buf_num_blocks, ctr_add, AesContext, Direction, Mode};

const KEYX: [u8; 16] = [
    0xd2, 0x2f, 0x5e, 0x15, 0xee, 0xfb, 0x12, 0x0d, 0x50, 0xf7, 0x6b, 0xbc, 0x76, 0x1a, 0x8f, 0x41,
];
const KEYY: [u8; 16] = [
    0xe7, 0x1c, 0x6c, 0x13, 0xe8, 0x0e, 0x40, 0x70, 0x1c, 0x1f, 0x03, 0x11, 0x14, 0x8b, 0x73, 0x8b,
];
const NORM_KEY: [u8; 16] = [
    0xde, 0x95, 0x19, 0xe2, 0x8b, 0x67, 0xcd, 0x7e, 0xf7, 0x8c, 0xf0, 0x06, 0x26, 0xb1, 0x04, 0x1f,
];
const IV: [u8; 16] = [
    0x4a, 0x25, 0x3b, 0xd1, 0x0a, 0xf1, 0x4a, 0xc4, 0x7c, 0xfd, 0xae, 0xf8, 0x20, 0xbe, 0x56, 0x58,
];
const TEXT: &[u8; 32] = b"I'm just going to input 32 chars";
const ENCRYPTED_CBC: [u8; 32] = [
    0xf2, 0xa2, 0x4e, 0x2b, 0xba, 0x56, 0x67, 0xa0, 0x56, 0x3c, 0x4d, 0xf8, 0xca, 0xa6, 0x84,
    0x63, 0xc1, 0xcf, 0x2f, 0x8f, 0xcf, 0x1e, 0x86, 0x3d, 0x10, 0x9e, 0x51, 0x94, 0x7a, 0xf3,
    0x5a, 0xe7,
];
const ENCRYPTED_ECB: [u8; 32] = [
    0x6a, 0xcc, 0xde, 0xba, 0x78, 0x83, 0x2c, 0x32, 0x37, 0x44, 0xfd, 0x7f, 0x3e, 0xf4, 0x12,
    0x28, 0x14, 0x3c, 0xd4, 0x0b, 0xff, 0xa5, 0x7d, 0xab, 0xf1, 0x8a, 0x28, 0xe9, 0x24, 0xc7,
    0x80, 0x14,
];
const ENCRYPTED_CTR: [u8; 32] = [
    0x43, 0xde, 0x1b, 0x35, 0x20, 0x9b, 0xc6, 0xba, 0x5f, 0xe8, 0xfd, 0xdb, 0x33, 0xee, 0x1a,
    0x04, 0x96, 0x9d, 0x12, 0x82, 0x74, 0xdb, 0x7d, 0x21, 0xc5, 0x1e, 0xb8, 0x19, 0xa5, 0xa7,
    0x40, 0x14,
];

fn ctx_normal() -> AesContext {
    AesContext::new().unwrap().with_normalkey(&NORM_KEY.to_vec())
}

#[test]
fn cbc_encrypt_with_keypair_matches_reference() {
    let ctx = AesContext::new()
        .unwrap()
        .with_keypair(&KEYX.to_vec(), &KEYY.to_vec());
    let mut buf = TEXT.to_vec();
    ctx.crypt128(Mode::CBC, Direction::Encrypt, &mut buf, Some(&IV.to_vec()))
        .unwrap();
    assert_eq!(buf, ENCRYPTED_CBC.to_vec());
}

#[test]
fn cbc_encrypt_with_normalkey_matches_reference() {
    let mut buf = TEXT.to_vec();
    ctx_normal()
        .crypt128(Mode::CBC, Direction::Encrypt, &mut buf, Some(&IV.to_vec()))
        .unwrap();
    assert_eq!(buf, ENCRYPTED_CBC.to_vec());
}

#[test]
fn keypair_and_normalkey_stage_the_same_effective_key() {
    let derived = AesContext::new()
        .unwrap()
        .with_keypair(&KEYX.to_vec(), &KEYY.to_vec());
    assert_eq!(derived.key, NORM_KEY.to_vec());
}

#[test]
fn cbc_decrypt_matches_reference() {
    let mut buf = ENCRYPTED_CBC.to_vec();
    ctx_normal()
        .crypt128(Mode::CBC, Direction::Decrypt, &mut buf, Some(&IV.to_vec()))
        .unwrap();
    assert_eq!(buf, TEXT.to_vec());
}

#[test]
fn ecb_encrypt_matches_reference() {
    let mut buf = TEXT.to_vec();
    ctx_normal()
        .crypt128(Mode::ECB, Direction::Encrypt, &mut buf, Some(&IV.to_vec()))
        .unwrap();
    assert_eq!(buf, ENCRYPTED_ECB.to_vec());
}

#[test]
fn ecb_decrypt_matches_reference() {
    let mut buf = ENCRYPTED_ECB.to_vec();
    ctx_normal()
        .crypt128(Mode::ECB, Direction::Decrypt, &mut buf, Some(&IV.to_vec()))
        .unwrap();
    assert_eq!(buf, TEXT.to_vec());
}

#[test]
fn ctr_encrypt_full_matches_reference() {
    let mut buf = TEXT.to_vec();
    ctx_normal()
        .crypt128(Mode::CTR, Direction::Encrypt, &mut buf, Some(&IV.to_vec()))
        .unwrap();
    assert_eq!(buf, ENCRYPTED_CTR.to_vec());
}

#[test]
fn ctr_decrypt_full_matches_reference() {
    let mut buf = ENCRYPTED_CTR.to_vec();
    ctx_normal()
        .crypt128(Mode::CTR, Direction::Decrypt, &mut buf, Some(&IV.to_vec()))
        .unwrap();
    assert_eq!(buf, TEXT.to_vec());
}

#[test]
fn ctr_encrypt_blockwise_matches_single_call() {
    let ctx = ctx_normal();
    let mut buf = TEXT.to_vec();
    let mut first: Vec<u8> = buf[0..16].to_vec();
    let mut second: Vec<u8> = buf[16..32].to_vec();
    let ctr0 = IV.to_vec();
    ctx.crypt128(Mode::CTR, Direction::Encrypt, &mut first, Some(&ctr0))
        .unwrap();
    let ctr1 = ctr_add(&ctr0, buf_num_blocks(&first).unwrap());
    ctx.crypt128(Mode::CTR, Direction::Encrypt, &mut second, Some(&ctr1))
        .unwrap();
    buf[0..16].copy_from_slice(&first);
    buf[16..32].copy_from_slice(&second);
    assert_eq!(buf, ENCRYPTED_CTR.to_vec());
}

#[test]
fn ctr_decrypt_blockwise_matches_single_call() {
    let ctx = ctx_normal();
    let mut first: Vec<u8> = ENCRYPTED_CTR[0..16].to_vec();
    let mut second: Vec<u8> = ENCRYPTED_CTR[16..32].to_vec();
    let ctr0 = IV.to_vec();
    ctx.crypt128(Mode::CTR, Direction::Decrypt, &mut first, Some(&ctr0))
        .unwrap();
    let ctr1 = ctr_add(&ctr0, buf_num_blocks(&first).unwrap());
    ctx.crypt128(Mode::CTR, Direction::Decrypt, &mut second, Some(&ctr1))
        .unwrap();
    let mut buf = first;
    buf.extend_from_slice(&second);
    assert_eq!(buf, TEXT.to_vec());
}

#[test]
fn output_le_reverses_each_word() {
    let ctx = ctx_normal().with_output_le(true);
    let mut buf = ENCRYPTED_ECB.to_vec();
    ctx.crypt128(Mode::ECB, Direction::Decrypt, &mut buf, Some(&IV.to_vec()))
        .unwrap();
    let expected: Vec<u8> = TEXT
        .chunks(4)
        .flat_map(|c| c.iter().rev().copied())
        .collect();
    assert_eq!(buf, expected);
}

#[test]
fn switching_key_changes_ciphertext() {
    let ctx = AesContext::new()
        .unwrap()
        .with_keypair(&KEYX.to_vec(), &KEYY.to_vec());
    let mut first = TEXT.to_vec();
    ctx.crypt128(Mode::CBC, Direction::Encrypt, &mut first, Some(&IV.to_vec()))
        .unwrap();
    let other_key = IV.to_vec();
    let ctx = ctx.with_normalkey(&other_key);
    let mut second = TEXT.to_vec();
    ctx.crypt128(Mode::CBC, Direction::Encrypt, &mut second, Some(&IV.to_vec()))
        .unwrap();
    assert_ne!(first, second);
}
