//! DMA transfer engine driver.
//!
//! The engine exposes one global control word and, per channel, a block of
//! seven registers laid out at a stride of 0x1C bytes from the bank's base:
//! source address, destination address, transfer count, write count, block
//! count, fill data and a combined control/status word whose top bit is the
//! busy flag. The register bank and the word-addressed memory the engine
//! moves data through are modelled as explicit values, so programming a
//! transfer and the engine's own behaviour are both ordinary verified code.

use vstd::prelude::*;

use crate::bits::BitRange;
use crate::bits::lemma_extract_inject;
use crate::bits::lemma_inject_preserves_disjoint;

verus! {

/// The per-channel registers, named by their byte offset within a channel's
/// block. `GlobalCnt` is the engine-wide control word, addressed as offset 0
/// of channel 0.
#[derive(Clone, Copy)]
pub enum Reg {
    GlobalCnt,
    SrcAddr,
    DstAddr,
    TransferCnt,
    WriteCnt,
    BlockCnt,
    FillData,
    Cnt,
}

impl Reg {
    /// Byte offset of the register within a channel's block.
    pub open spec fn spec_offset(self) -> u32 {
        match self {
            Reg::GlobalCnt => 0x00,
            Reg::SrcAddr => 0x04,
            Reg::DstAddr => 0x08,
            Reg::TransferCnt => 0x0C,
            Reg::WriteCnt => 0x10,
            Reg::BlockCnt => 0x14,
            Reg::FillData => 0x18,
            Reg::Cnt => 0x1C,
        }
    }

    /// Byte offset of the register within a channel's block.
    pub fn offset(self) -> (r: u32)
        ensures
            r == self.spec_offset(),
    {
        match self {
            Reg::GlobalCnt => 0x00,
            Reg::SrcAddr => 0x04,
            Reg::DstAddr => 0x08,
            Reg::TransferCnt => 0x0C,
            Reg::WriteCnt => 0x10,
            Reg::BlockCnt => 0x14,
            Reg::FillData => 0x18,
            Reg::Cnt => 0x1C,
        }
    }
}

/// Word index of a register in the bank: byte address `channel * 0x1C +
/// offset`, divided by the word size.
pub open spec fn reg_index(reg: Reg, channel: u32) -> int {
    channel * 7 + reg.spec_offset() / 4
}

/// The engine's register bank, one 32-bit word per register, in address
/// order from the bank's base.
pub struct NdmaController {
    pub regs: Vec<u32>,
}

impl NdmaController {
    /// A bank large enough for `channel`'s block.
    pub open spec fn holds_channel(self, channel: u32) -> bool {
        channel * 7 + 7 < self.regs@.len()
    }

    /// A bank of zeroed registers covering `channels` channel blocks.
    pub fn new(channels: u32) -> (r: NdmaController)
        requires
            channels <= 0x0100_0000,
        ensures
            r.regs@.len() == channels * 7 + 1,
            forall|i: int| 0 <= i < r.regs@.len() ==> r.regs@[i] == 0u32,
    {
        let n: usize = (channels as usize) * 7 + 1;
        NdmaController { regs: vec![0u32; n] }
    }
}

/// Reads a register word from the bank.
pub fn read_reg(ctrl: &NdmaController, reg: Reg, channel: u32) -> (r: u32)
    requires
        0 <= reg_index(reg, channel) < ctrl.regs@.len(),
    ensures
        r == ctrl.regs@[reg_index(reg, channel)],
{
    // Binding the length as a usize bounds the register index arithmetic.
    let _bank_len: usize = ctrl.regs.len();
    assert(channel * 7 <= reg_index(reg, channel));
    let idx: usize = (channel as usize) * 7 + (reg.offset() as usize) / 4;
    ctrl.regs[idx]
}

/// Writes a register word into the bank.
pub fn write_reg(ctrl: &mut NdmaController, reg: Reg, val: u32, channel: u32)
    requires
        0 <= reg_index(reg, channel) < old(ctrl).regs@.len(),
    ensures
        final(ctrl).regs@ == old(ctrl).regs@.update(reg_index(reg, channel), val),
{
    // Binding the length as a usize bounds the register index arithmetic.
    let _bank_len: usize = ctrl.regs.len();
    assert(channel * 7 <= reg_index(reg, channel));
    let idx: usize = (channel as usize) * 7 + (reg.offset() as usize) / 4;
    ctrl.regs[idx] = val;
}

/// Global control: engine enable bit.
pub open spec fn global_enable() -> BitRange {
    BitRange { lo: 0, hi: 0 }
}

/// Channel control: how the destination address advances.
pub open spec fn dst_update_method() -> BitRange {
    BitRange { lo: 10, hi: 11 }
}

/// Channel control: how the source address advances.
pub open spec fn src_update_method() -> BitRange {
    BitRange { lo: 13, hi: 14 }
}

/// Channel control: start in immediate mode.
pub open spec fn mode_immediate() -> BitRange {
    BitRange { lo: 28, hi: 28 }
}

/// Channel control: busy/start flag.
pub open spec fn busy() -> BitRange {
    BitRange { lo: 31, hi: 31 }
}

fn global_enable_exec() -> (r: BitRange)
    ensures
        r == global_enable(),
{
    BitRange { lo: 0, hi: 0 }
}

fn dst_update_method_exec() -> (r: BitRange)
    ensures
        r == dst_update_method(),
{
    BitRange { lo: 10, hi: 11 }
}

fn src_update_method_exec() -> (r: BitRange)
    ensures
        r == src_update_method(),
{
    BitRange { lo: 13, hi: 14 }
}

fn mode_immediate_exec() -> (r: BitRange)
    ensures
        r == mode_immediate(),
{
    BitRange { lo: 28, hi: 28 }
}

fn busy_exec() -> (r: BitRange)
    ensures
        r == busy(),
{
    BitRange { lo: 31, hi: 31 }
}

/// Source update method value: the address advances word by word.
pub const SRC_INCREMENT: u32 = 0;

/// Source update method value: no memory read, the fill word repeats.
pub const SRC_FILL: u32 = 3;

/// Destination update method value: the address advances word by word.
pub const DST_INCREMENT: u32 = 0;

/// The word-addressed memory the engine reads and writes: the word at byte
/// address `a` (4-byte aligned) is `words[a / 4]`.
pub struct DmaMemory {
    pub words: Vec<u32>,
}

impl DmaMemory {
    /// A zeroed memory of `len` words.
    pub fn new(len: usize) -> (r: DmaMemory)
        ensures
            r.words@.len() == len,
            forall|i: int| 0 <= i < len ==> r.words@[i] == 0u32,
    {
        DmaMemory { words: vec![0u32; len] }
    }
}

/// How the source address of a transfer advances: a repeating fill word, a
/// fixed address, a cyclic window, or a linear buffer of a known word count.
/// Only the linear variant carries an authoritative transfer length.
#[derive(Clone, Copy)]
pub enum NdmaSrc {
    FillData(u32),
    FixedAddr(u32),
    CycleBuf(u32, usize),
    LinearBuf(u32, usize),
}

/// How the destination address of a transfer advances. Writing a constant
/// makes no sense as a destination, so there is no fill variant.
#[derive(Clone, Copy)]
pub enum NdmaDst {
    FixedAddr(u32),
    CycleBuf(u32, usize),
    LinearBuf(u32, usize),
}

impl NdmaSrc {
    /// The transfer bound this descriptor carries, if any.
    pub open spec fn spec_max_xfer_words(self) -> Option<usize> {
        match self {
            NdmaSrc::FillData(_) => None,
            NdmaSrc::FixedAddr(_) => None,
            NdmaSrc::CycleBuf(_, _) => None,
            NdmaSrc::LinearBuf(_, len) => Some(len),
        }
    }

    /// The transfer bound this descriptor carries, if any.
    pub fn max_xfer_words(&self) -> (r: Option<usize>)
        ensures
            r == self.spec_max_xfer_words(),
    {
        match *self {
            NdmaSrc::FillData(_) => None,
            NdmaSrc::FixedAddr(_) => None,
            NdmaSrc::CycleBuf(_, _) => None,
            NdmaSrc::LinearBuf(_, len) => Some(len),
        }
    }

    /// Every address the descriptor embeds is 4-byte aligned.
    pub open spec fn aligned(self) -> bool {
        match self {
            NdmaSrc::FillData(_) => true,
            NdmaSrc::FixedAddr(a) => a % 4 == 0,
            NdmaSrc::CycleBuf(a, _) => a % 4 == 0,
            NdmaSrc::LinearBuf(a, _) => a % 4 == 0,
        }
    }

    /// The variants the transfer algorithm has an encoding for.
    pub open spec fn supported(self) -> bool {
        self is FillData || self is LinearBuf
    }
}

impl NdmaDst {
    /// The transfer bound this descriptor carries, if any.
    pub open spec fn spec_max_xfer_words(self) -> Option<usize> {
        match self {
            NdmaDst::FixedAddr(_) => None,
            NdmaDst::CycleBuf(_, _) => None,
            NdmaDst::LinearBuf(_, len) => Some(len),
        }
    }

    /// The transfer bound this descriptor carries, if any.
    pub fn max_xfer_words(&self) -> (r: Option<usize>)
        ensures
            r == self.spec_max_xfer_words(),
    {
        match *self {
            NdmaDst::FixedAddr(_) => None,
            NdmaDst::CycleBuf(_, _) => None,
            NdmaDst::LinearBuf(_, len) => Some(len),
        }
    }

    /// Every address the descriptor embeds is 4-byte aligned.
    pub open spec fn aligned(self) -> bool {
        match self {
            NdmaDst::FixedAddr(a) => a % 4 == 0,
            NdmaDst::CycleBuf(a, _) => a % 4 == 0,
            NdmaDst::LinearBuf(a, _) => a % 4 == 0,
        }
    }

    /// The variants the transfer algorithm has an encoding for.
    pub open spec fn supported(self) -> bool {
        self is LinearBuf
    }
}

/// The larger of two optional bounds, treating an absent bound as no bound.
pub open spec fn opt_max(a: Option<usize>, b: Option<usize>) -> Option<usize> {
    match (a, b) {
        (Option::None, x) => x,
        (Option::Some(x), Option::None) => Option::Some(x),
        (Option::Some(x), Option::Some(y)) => if x >= y {
            Option::Some(x)
        } else {
            Option::Some(y)
        },
    }
}

/// The resolved transfer length: the largest of the bounds known from the
/// source, the destination and the optional external ceiling.
pub open spec fn spec_max_xfer_words(src: NdmaSrc, dst: NdmaDst, limit: Option<usize>) -> Option<
    usize,
> {
    opt_max(opt_max(src.spec_max_xfer_words(), dst.spec_max_xfer_words()), limit)
}

/// Resolves the effective transfer length as the largest known bound among
/// the source's, the destination's and the external ceiling. At least one
/// bound must be known.
pub fn max_xfer_words(src: &NdmaSrc, dst: &NdmaDst, limit: Option<usize>) -> (r: usize)
    requires
        spec_max_xfer_words(*src, *dst, limit) is Some,
    ensures
        Some(r) == spec_max_xfer_words(*src, *dst, limit),
{
    let mut best: Option<usize> = src.max_xfer_words();
    best = opt_max_exec(best, dst.max_xfer_words());
    best = opt_max_exec(best, limit);
    best.unwrap()
}

fn opt_max_exec(a: Option<usize>, b: Option<usize>) -> (r: Option<usize>)
    ensures
        r == opt_max(a, b),
{
    match (a, b) {
        (Option::None, x) => x,
        (Option::Some(x), Option::None) => Option::Some(x),
        (Option::Some(x), Option::Some(y)) => if x >= y {
            Option::Some(x)
        } else {
            Option::Some(y)
        },
    }
}

/// Why a transfer was refused. All three are usage errors: the call aborts
/// before any register is written.
#[derive(Clone, Copy, Debug, PartialEq, Eq, Structural)]
pub enum DmaError {
    /// An embedded address is not 4-byte aligned.
    Misaligned,
    /// The source or destination variant has no encoding path.
    Unsupported,
    /// The source and destination carry different authoritative lengths.
    MismatchedBounds,
}

/// The word the source descriptor supplies for transfer position `k`.
pub open spec fn src_word(mem: Seq<u32>, src: NdmaSrc, k: int) -> u32 {
    match src {
        NdmaSrc::FillData(v) => v,
        NdmaSrc::FixedAddr(a) => mem[a as int / 4],
        NdmaSrc::CycleBuf(a, _) => mem[a as int / 4 + k],
        NdmaSrc::LinearBuf(a, _) => mem[a as int / 4 + k],
    }
}

/// Memory after `n` words of the transfer into the linear destination at
/// word index `dstw` have been written.
pub open spec fn mem_after(mem: Seq<u32>, src: NdmaSrc, dstw: int, n: int) -> Seq<u32> {
    Seq::new(
        mem.len(),
        |i: int|
            if dstw <= i < dstw + n {
                src_word(mem, src, i - dstw)
            } else {
                mem[i]
            },
    )
}

/// A completed transfer leaves every word of the destination window equal
/// to what the source supplies for its position — the source window's words
/// for a linear source, the constant for a fill — and every word outside
/// the window untouched.
pub proof fn lemma_transfer_effect(mem: Seq<u32>, src: NdmaSrc, dstw: int, n: int)
    requires
        0 <= n,
        0 <= dstw,
        dstw + n <= mem.len(),
    ensures
        mem_after(mem, src, dstw, n).len() == mem.len(),
        forall|i: int|
            0 <= i < n ==> mem_after(mem, src, dstw, n)[dstw + i] == src_word(mem, src, i),
        forall|i: int|
            0 <= i < mem.len() && !(dstw <= i < dstw + n) ==> mem_after(mem, src, dstw, n)[i]
                == mem[i],
{
}

/// The word ranges a supported transfer touches lie inside the memory, the
/// counts fit the hardware's 32-bit count register, and a linear source does
/// not overlap the destination.
pub open spec fn transfer_in_range(mem: Seq<u32>, src: NdmaSrc, dst: NdmaDst) -> bool {
    dst matches NdmaDst::LinearBuf(da, n) ==> {
        &&& n <= 0xffff_ffffusize
        &&& da / 4 + n <= mem.len()
        &&& (src matches NdmaSrc::LinearBuf(sa, m) ==> {
            &&& sa / 4 + m <= mem.len()
            &&& (sa / 4 + n <= da / 4 || da / 4 + n <= sa / 4)
        })
    }
}

/// Performs one transfer on channel 1, mirroring the hardware's sequencing:
/// set the global enable, quiesce the channel, stage the source and
/// destination encodings, resolve the transfer length, start in immediate
/// mode with one control-word write, and wait until the busy flag clears.
///
/// Usage errors — a misaligned address, a variant with no encoding path, or
/// source and destination that carry different authoritative lengths — are
/// refused before any register is touched.
pub fn mem_transfer(ctrl: &mut NdmaController, mem: &mut DmaMemory, src: NdmaSrc, dst: NdmaDst) -> (r:
    Result<usize, DmaError>)
    requires
        old(ctrl).holds_channel(1),
        src.aligned() && dst.aligned() && src.supported() && dst.supported()
            && spec_bounds_agree(src, dst) ==> transfer_in_range(old(mem).words@, src, dst),
    ensures
        final(ctrl).regs@.len() == old(ctrl).regs@.len(),
        final(mem).words@.len() == old(mem).words@.len(),
        !(src.aligned() && dst.aligned()) ==> r == Result::<usize, DmaError>::Err(
            DmaError::Misaligned,
        ) && final(ctrl).regs@ == old(ctrl).regs@ && final(mem).words@ == old(mem).words@,
        src.aligned() && dst.aligned() && !(src.supported() && dst.supported()) ==> r
            == Result::<usize, DmaError>::Err(DmaError::Unsupported) && final(ctrl).regs@ == old(
            ctrl,
        ).regs@ && final(mem).words@ == old(mem).words@,
        src.aligned() && dst.aligned() && src.supported() && dst.supported() && !spec_bounds_agree(
            src,
            dst,
        ) ==> r == Result::<usize, DmaError>::Err(DmaError::MismatchedBounds) && final(ctrl).regs@ == old(
            ctrl,
        ).regs@ && final(mem).words@ == old(mem).words@,
        src.aligned() && dst.aligned() && src.supported() && dst.supported() && spec_bounds_agree(
            src,
            dst,
        ) ==> {
            &&& Some(r->Ok_0) == spec_max_xfer_words(src, dst, None::<usize>)
            &&& r is Ok
            &&& (dst matches NdmaDst::LinearBuf(da, _) ==> final(mem).words@ == mem_after(
                old(mem).words@,
                src,
                da as int / 4,
                r->Ok_0 as int,
            ))
            &&& global_enable().spec_extract(final(ctrl).regs@[reg_index(Reg::GlobalCnt, 0)]) == 1
            &&& busy().spec_extract(final(ctrl).regs@[reg_index(Reg::Cnt, 1)]) == 0
            &&& mode_immediate().spec_extract(final(ctrl).regs@[reg_index(Reg::Cnt, 1)]) == 1
            &&& src_update_method().spec_extract(final(ctrl).regs@[reg_index(Reg::Cnt, 1)]) == (
            if src is FillData {
                SRC_FILL
            } else {
                SRC_INCREMENT
            })
            &&& dst_update_method().spec_extract(final(ctrl).regs@[reg_index(Reg::Cnt, 1)])
                == DST_INCREMENT
            &&& final(ctrl).regs@[reg_index(Reg::WriteCnt, 1)] == r->Ok_0 as u32
            &&& (src matches NdmaSrc::LinearBuf(sa, _) ==> final(ctrl).regs@[reg_index(Reg::SrcAddr, 1)]
                == sa)
            &&& (src matches NdmaSrc::FillData(v) ==> final(ctrl).regs@[reg_index(Reg::FillData, 1)] == v)
            &&& (dst matches NdmaDst::LinearBuf(da, _) ==> final(ctrl).regs@[reg_index(Reg::DstAddr, 1)]
                == da)
        },
{
    let channel: u32 = 1;

    // Usage errors abort before any register write.
    if !src_aligned_exec(&src) || !dst_aligned_exec(&dst) {
        return Err(DmaError::Misaligned);
    }
    let src_is_fill: bool = matches!(src, NdmaSrc::FillData(_));
    let src_is_linear: bool = matches!(src, NdmaSrc::LinearBuf(_, _));
    let dst_is_linear: bool = matches!(dst, NdmaDst::LinearBuf(_, _));
    if !(src_is_fill || src_is_linear) || !dst_is_linear {
        return Err(DmaError::Unsupported);
    }
    if !bounds_agree_exec(&src, &dst) {
        return Err(DmaError::MismatchedBounds);
    }

    // Ensure global settings.
    let mut global_cnt: u32 = 0;
    global_cnt = global_enable_exec().inject(global_cnt, 1);
    write_reg(ctrl, Reg::GlobalCnt, global_cnt, 0);

    // Quiesce the channel before reconfiguring it.
    write_reg(ctrl, Reg::Cnt, 0, channel);
    proof {
        assert(((1u32 << 1u32) - 1) as u32 == 1u32 && ((1u32 << 2u32) - 1) as u32 == 3u32) by (bit_vector);
        assert(crate::bits::ones_below(1) == 1 && crate::bits::ones_below(2) == 3);
        assert((0u32 >> 31u32) & 1u32 == 0u32) by (bit_vector);
        assert(busy().spec_extract(0u32) == 0);
    }
    // Poll until the channel is quiet. The modelled engine settles
    // synchronously, so the flag is already down and the wait ends at once.
    while busy_exec().extract(read_reg(ctrl, Reg::Cnt, channel)) == 1
        invariant
            channel == 1,
            ctrl.holds_channel(1),
            busy().spec_extract(ctrl.regs@[reg_index(Reg::Cnt, 1)]) == 0,
        decreases 0int,
    {
        assert(false);
    }

    let mut cnt: u32 = 0;

    match src {
        NdmaSrc::FillData(data) => {
            write_reg(ctrl, Reg::FillData, data, channel);
            cnt = src_update_method_exec().inject(cnt, SRC_FILL);
        },
        NdmaSrc::LinearBuf(addr, _words) => {
            write_reg(ctrl, Reg::SrcAddr, addr, channel);
            cnt = src_update_method_exec().inject(cnt, SRC_INCREMENT);
        },
        _ => {
            assert(false);
        },
    }
    let ghost su_val: u32 = if src is FillData {
        SRC_FILL
    } else {
        SRC_INCREMENT
    };
    let ghost c1 = cnt;
    assert(c1 == src_update_method().spec_inject(0, su_val));

    match dst {
        NdmaDst::LinearBuf(addr, _words) => {
            write_reg(ctrl, Reg::DstAddr, addr, channel);
            cnt = dst_update_method_exec().inject(cnt, DST_INCREMENT);
        },
        _ => {
            assert(false);
        },
    }
    let ghost c2 = cnt;

    let xfer_size: usize = max_xfer_words(&src, &dst, None);
    write_reg(ctrl, Reg::WriteCnt, xfer_size as u32, channel);

    cnt = mode_immediate_exec().inject(cnt, 1);
    let ghost c3 = cnt;
    cnt = busy_exec().inject(cnt, 1);  // Start
    let ghost c4 = cnt;
    write_reg(ctrl, Reg::Cnt, cnt, channel);

    // The engine itself: with the busy flag raised, it moves `xfer_size`
    // words as programmed, then drops the flag.
    run_channel(ctrl, mem, src, dst, xfer_size, Ghost(cnt));
    // Poll until the transfer completes; the modelled engine has already
    // settled, so the busy flag is down.
    proof {
        let cf = busy().spec_inject(c4, 0);
        assert(ctrl.regs@[reg_index(Reg::Cnt, 1)] == cf);
        assert(((1u32 << 1u32) - 1) as u32 == 1u32 && ((1u32 << 2u32) - 1) as u32 == 3u32) by (bit_vector);
        assert(crate::bits::ones_below(1) == 1 && crate::bits::ones_below(2) == 3);
        assert(0u32 & 1u32 == 0u32 && 1u32 & 1u32 == 1u32 && 0u32 & 3u32 == 0u32 && 3u32 & 3u32
            == 3u32) by (bit_vector);
        // The busy flag is down again.
        lemma_extract_inject(busy(), c4, 0);
        assert(busy().spec_extract(cf) == 0);
        // Immediate mode was selected and survives the busy-flag changes.
        lemma_extract_inject(mode_immediate(), c2, 1);
        lemma_inject_preserves_disjoint(busy(), mode_immediate(), c3, 1);
        lemma_inject_preserves_disjoint(busy(), mode_immediate(), c4, 0);
        assert(mode_immediate().spec_extract(cf) == 1);
        // The source update method chosen in the source match survives.
        lemma_extract_inject(src_update_method(), 0, su_val);
        lemma_inject_preserves_disjoint(dst_update_method(), src_update_method(), c1, DST_INCREMENT);
        lemma_inject_preserves_disjoint(mode_immediate(), src_update_method(), c2, 1);
        lemma_inject_preserves_disjoint(busy(), src_update_method(), c3, 1);
        lemma_inject_preserves_disjoint(busy(), src_update_method(), c4, 0);
        assert(src_update_method().spec_extract(cf) == su_val);
        // The destination update method survives.
        lemma_extract_inject(dst_update_method(), c1, DST_INCREMENT);
        lemma_inject_preserves_disjoint(mode_immediate(), dst_update_method(), c2, 1);
        lemma_inject_preserves_disjoint(busy(), dst_update_method(), c3, 1);
        lemma_inject_preserves_disjoint(busy(), dst_update_method(), c4, 0);
        assert(dst_update_method().spec_extract(cf) == DST_INCREMENT);
        // The global enable bit of the engine-wide control word.
        lemma_extract_inject(global_enable(), 0, 1);
        assert(global_enable().spec_extract(ctrl.regs@[reg_index(Reg::GlobalCnt, 0)]) == 1);
    }

    while busy_exec().extract(read_reg(ctrl, Reg::Cnt, channel)) == 1
        invariant
            channel == 1,
            ctrl.holds_channel(1),
            busy().spec_extract(ctrl.regs@[reg_index(Reg::Cnt, 1)]) == 0,
        decreases 0int,
    {
        assert(false);
    }
    Ok(xfer_size)
}

/// The source's and destination's authoritative lengths, where both exist,
/// agree. A fill source carries no length, so it agrees with everything.
pub open spec fn spec_bounds_agree(src: NdmaSrc, dst: NdmaDst) -> bool {
    match (src.spec_max_xfer_words(), dst.spec_max_xfer_words()) {
        (Option::Some(a), Option::Some(b)) => a == b,
        _ => true,
    }
}

fn bounds_agree_exec(src: &NdmaSrc, dst: &NdmaDst) -> (r: bool)
    ensures
        r == spec_bounds_agree(*src, *dst),
{
    match (src.max_xfer_words(), dst.max_xfer_words()) {
        (Option::Some(a), Option::Some(b)) => a == b,
        _ => true,
    }
}

fn src_aligned_exec(src: &NdmaSrc) -> (r: bool)
    ensures
        r == src.aligned(),
{
    match *src {
        NdmaSrc::FillData(_) => true,
        NdmaSrc::FixedAddr(a) => a % 4 == 0,
        NdmaSrc::CycleBuf(a, _) => a % 4 == 0,
        NdmaSrc::LinearBuf(a, _) => a % 4 == 0,
    }
}

fn dst_aligned_exec(dst: &NdmaDst) -> (r: bool)
    ensures
        r == dst.aligned(),
{
    match *dst {
        NdmaDst::FixedAddr(a) => a % 4 == 0,
        NdmaDst::CycleBuf(a, _) => a % 4 == 0,
        NdmaDst::LinearBuf(a, _) => a % 4 == 0,
    }
}

/// Models the engine's work on channel 1: moves `n` words from the
/// programmed source to the linear destination, then clears the busy flag in
/// the channel's control word.
fn run_channel(
    ctrl: &mut NdmaController,
    mem: &mut DmaMemory,
    src: NdmaSrc,
    dst: NdmaDst,
    n: usize,
    Ghost(cnt_word): Ghost<u32>,
)
    requires
        old(ctrl).holds_channel(1),
        old(ctrl).regs@[reg_index(Reg::Cnt, 1)] == cnt_word,
        src.supported(),
        dst matches NdmaDst::LinearBuf(da, _) && {
            &&& da / 4 + n <= old(mem).words@.len()
            &&& (src matches NdmaSrc::LinearBuf(sa, _) ==> sa / 4 + n <= old(mem).words@.len() && (
            sa / 4 + n <= da / 4 || da / 4 + n <= sa / 4))
        },
    ensures
        final(ctrl).regs@ == old(ctrl).regs@.update(
            reg_index(Reg::Cnt, 1),
            busy().spec_inject(cnt_word, 0),
        ),
        dst matches NdmaDst::LinearBuf(da, _) ==> final(mem).words@ == mem_after(
            old(mem).words@,
            src,
            da as int / 4,
            n as int,
        ),
{
    let (da, _dn): (u32, usize) = match dst {
        NdmaDst::LinearBuf(a, len) => (a, len),
        _ => {
            proof {
                assert(false);
            }
            (0, 0)
        },
    };
    let dw: usize = (da / 4) as usize;
    let ghost mem0 = mem.words@;
    let mut i: usize = 0;
    while i < n
        invariant
            dst matches NdmaDst::LinearBuf(a, _) && a == da,
            src.supported(),
            dw == da / 4,
            i <= n,
            dw + n <= mem0.len(),
            src matches NdmaSrc::LinearBuf(sa, _) ==> sa / 4 + n <= mem0.len() && (sa / 4 + n <= dw
                || dw + n <= sa / 4),
            mem.words@ == mem_after(mem0, src, dw as int, i as int),
        decreases n - i,
    {
        let value: u32 = match src {
            NdmaSrc::FillData(v) => v,
            NdmaSrc::LinearBuf(sa, _) => {
                let sw: usize = (sa / 4) as usize;
                assert(mem.words@[sw + i] == mem0[sw + i]);
                mem.words[sw + i]
            },
            _ => {
                proof {
                    assert(false);
                }
                0
            },
        };
        assert(value == src_word(mem0, src, i as int));
        let wlen: usize = mem.words.len();
        assert(wlen == mem0.len());
        mem.words[dw + i] = value;
        assert(mem.words@ =~= mem_after(mem0, src, dw as int, i as int + 1));
        i = i + 1;
    }
    let cleared: u32 = busy_exec().inject(read_reg(ctrl, Reg::Cnt, 1), 0);
    write_reg(ctrl, Reg::Cnt, cleared, 1);
}

} // verus!
