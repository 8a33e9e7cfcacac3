use soc_hal::aes::{buf_num_blocks, AesContext, AesError, Direction, Mode};

fn ctx() -> AesContext {
    let key: Vec<u8> = (0u8..16u8).collect();
    AesContext::new().unwrap().with_normalkey(&key)
}

#[test]
fn buf_num_blocks_counts_positive_multiples_of_16() {
    assert_eq!(buf_num_blocks(&vec![0u8; 16]), Some(1));
    assert_eq!(buf_num_blocks(&vec![0u8; 32]), Some(2));
    assert_eq!(buf_num_blocks(&vec![0u8; 160]), Some(10));
}

#[test]
fn buf_num_blocks_rejects_other_lengths() {
    assert_eq!(buf_num_blocks(&Vec::new()), None);
    assert_eq!(buf_num_blocks(&vec![0u8; 1]), None);
    assert_eq!(buf_num_blocks(&vec![0u8; 17]), None);
    assert_eq!(buf_num_blocks(&vec![0u8; 31]), None);
}

#[test]
fn unaligned_buffer_is_refused() {
    let mut buf = vec![0u8; 17];
    let before = buf.clone();
    let r = ctx().crypt128(Mode::ECB, Direction::Encrypt, &mut buf, None);
    assert_eq!(r, Err(AesError::NotBlockAligned));
    assert_eq!(buf, before);
}

#[test]
fn cbc_without_iv_is_refused() {
    let mut buf = vec![0u8; 32];
    let r = ctx().crypt128(Mode::CBC, Direction::Encrypt, &mut buf, None);
    assert_eq!(r, Err(AesError::MissingIv));
}

#[test]
fn ctr_without_iv_is_refused() {
    let mut buf = vec![0u8; 32];
    let r = ctx().crypt128(Mode::CTR, Direction::Encrypt, &mut buf, None);
    assert_eq!(r, Err(AesError::MissingIv));
}

#[test]
fn ecb_without_iv_is_accepted() {
    let mut buf = vec![0u8; 32];
    assert!(ctx()
        .crypt128(Mode::ECB, Direction::Encrypt, &mut buf, None)
        .is_ok());
}

#[test]
fn round_trip_all_modes() {
    let iv: Vec<u8> = (100u8..116u8).collect();
    let plain: Vec<u8> = (0u8..48u8).collect();
    for mode in [Mode::ECB, Mode::CBC, Mode::CTR] {
        let mut buf = plain.clone();
        ctx()
            .crypt128(mode, Direction::Encrypt, &mut buf, Some(&iv))
            .unwrap();
        assert_ne!(buf, plain);
        ctx()
            .crypt128(mode, Direction::Decrypt, &mut buf, Some(&iv))
            .unwrap();
        assert_eq!(buf, plain);
    }
}

#[test]
fn ctr_add_carries_into_higher_bytes() {
    let mut ctr = vec![0u8; 16];
    ctr[15] = 0xff;
    let next = soc_hal::aes::ctr_add(&ctr, 1);
    let mut expect = vec![0u8; 16];
    expect[14] = 1;
    assert_eq!(next, expect);
    let wrap = soc_hal::aes::ctr_add(&vec![0xffu8; 16], 1);
    assert_eq!(wrap, vec![0u8; 16]);
}

#[test]
fn empty_buffer_is_not_block_aligned_for_counting_but_crypts_to_empty() {
    let mut buf: Vec<u8> = Vec::new();
    assert!(ctx()
        .crypt128(Mode::ECB, Direction::Encrypt, &mut buf, None)
        .is_ok());
    assert!(buf.is_empty());
}
