use soc_hal::bits::BitRange;
use soc_hal::ndma::{
    max_xfer_words, mem_transfer, DmaError, DmaMemory, NdmaController, NdmaDst, NdmaSrc,
};

#[test]
fn linear_to_linear_copies_and_returns_count() {
    let mut ctrl = NdmaController::new(2);
    let mut mem = DmaMemory::new(64);
    for i in 0..4usize {
        mem.words[1 + i] = 0x1111_1111u32 * (i as u32 + 1);
    }
    let r = mem_transfer(
        &mut ctrl,
        &mut mem,
        NdmaSrc::LinearBuf(4, 4),
        NdmaDst::LinearBuf(32, 4),
    );
    assert_eq!(r, Ok(4));
    for i in 0..4usize {
        assert_eq!(mem.words[8 + i], 0x1111_1111u32 * (i as u32 + 1));
        assert_eq!(mem.words[1 + i], 0x1111_1111u32 * (i as u32 + 1));
    }
}

#[test]
fn fill_transfer_repeats_the_constant() {
    let mut ctrl = NdmaController::new(2);
    let mut mem = DmaMemory::new(32);
    let r = mem_transfer(
        &mut ctrl,
        &mut mem,
        NdmaSrc::FillData(0xdead_beef),
        NdmaDst::LinearBuf(16, 3),
    );
    assert_eq!(r, Ok(3));
    assert_eq!(mem.words[4], 0xdead_beef);
    assert_eq!(mem.words[5], 0xdead_beef);
    assert_eq!(mem.words[6], 0xdead_beef);
    assert_eq!(mem.words[7], 0);
}

#[test]
fn misaligned_address_fails_without_touching_registers() {
    let mut ctrl = NdmaController::new(2);
    let mut mem = DmaMemory::new(32);
    mem.words[0] = 7;
    let r = mem_transfer(
        &mut ctrl,
        &mut mem,
        NdmaSrc::LinearBuf(2, 4),
        NdmaDst::LinearBuf(32, 4),
    );
    assert_eq!(r, Err(DmaError::Misaligned));
    assert!(ctrl.regs.iter().all(|&w| w == 0));
    assert_eq!(mem.words[0], 7);

    let r = mem_transfer(
        &mut ctrl,
        &mut mem,
        NdmaSrc::LinearBuf(4, 4),
        NdmaDst::LinearBuf(33, 4),
    );
    assert_eq!(r, Err(DmaError::Misaligned));
    assert!(ctrl.regs.iter().all(|&w| w == 0));
}

#[test]
fn unsupported_variants_fail_loudly() {
    let mut ctrl = NdmaController::new(2);
    let mut mem = DmaMemory::new(32);
    let r = mem_transfer(
        &mut ctrl,
        &mut mem,
        NdmaSrc::FixedAddr(0),
        NdmaDst::LinearBuf(32, 4),
    );
    assert_eq!(r, Err(DmaError::Unsupported));
    let r = mem_transfer(
        &mut ctrl,
        &mut mem,
        NdmaSrc::LinearBuf(0, 4),
        NdmaDst::CycleBuf(32, 4),
    );
    assert_eq!(r, Err(DmaError::Unsupported));
    assert!(ctrl.regs.iter().all(|&w| w == 0));
}

#[test]
fn mismatched_linear_bounds_fail_loudly() {
    let mut ctrl = NdmaController::new(2);
    let mut mem = DmaMemory::new(64);
    let r = mem_transfer(
        &mut ctrl,
        &mut mem,
        NdmaSrc::LinearBuf(0, 2),
        NdmaDst::LinearBuf(64, 3),
    );
    assert_eq!(r, Err(DmaError::MismatchedBounds));
    assert!(ctrl.regs.iter().all(|&w| w == 0));
}

#[test]
fn max_xfer_words_picks_the_largest_known_bound() {
    assert_eq!(
        max_xfer_words(&NdmaSrc::LinearBuf(0, 2), &NdmaDst::LinearBuf(0, 5), None),
        5
    );
    assert_eq!(
        max_xfer_words(&NdmaSrc::FillData(9), &NdmaDst::LinearBuf(0, 5), Some(7)),
        7
    );
    assert_eq!(
        max_xfer_words(&NdmaSrc::FillData(9), &NdmaDst::FixedAddr(0), Some(3)),
        3
    );
    assert_eq!(
        NdmaSrc::LinearBuf(0, 6).max_xfer_words(),
        Some(6)
    );
    assert_eq!(NdmaSrc::FillData(1).max_xfer_words(), None);
    assert_eq!(NdmaDst::FixedAddr(0).max_xfer_words(), None);
}

#[test]
fn bitfield_inject_preserves_other_bits() {
    let f = BitRange { lo: 10, hi: 11 };
    let word = 0xffff_ffffu32;
    let w2 = f.inject(word, 0);
    assert_eq!(w2, 0xffff_f3ff);
    assert_eq!(f.extract(w2), 0);
    let g = BitRange { lo: 31, hi: 31 };
    assert_eq!(g.extract(w2), 1);
    assert_eq!(g.inject(0, 1), 0x8000_0000);
}
