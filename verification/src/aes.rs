//! The AES crypto engine: key staging, cipher-mode dispatch and in-place
//! block transformation.
//!
//! A context holds the staged 128-bit key and the output byte-order flag.
//! Keys are staged either through the hardware key scrambler, which derives
//! the effective key from a KeyX/KeyY pair, or directly as a precomputed
//! normal key; staging fully replaces the previous key. A cipher call
//! transforms a whole buffer, one 16-byte block at a time, in ECB, CBC or
//! CTR mode. The counter of CTR mode is explicit caller state, which makes
//! long streams resumable.

use vstd::prelude::*;

use crate::aes_core::aes_decrypt_block;
use crate::aes_core::aes_encrypt_block;
use crate::aes_core::decrypt_block;
use crate::aes_core::encrypt_block;
use crate::aes_core::expand_key;
use crate::aes_core::lemma_crypt_block_len;
use crate::aes_core::lemma_xor_involution;
use crate::aes_core::round_key;
use crate::aes_core::xor_block;

verus! {

/// The cipher modes the engine implements.
#[derive(Clone, Copy, PartialEq, Eq, Structural, Debug)]
pub enum Mode {
    ECB,
    CBC,
    CTR,
}

/// The direction of a cipher operation.
#[derive(Clone, Copy, PartialEq, Eq, Structural, Debug)]
pub enum Direction {
    Encrypt,
    Decrypt,
}

/// Why a crypto call was refused.
#[derive(Clone, Copy, PartialEq, Eq, Structural, Debug)]
pub enum AesError {
    /// The crypto hardware block could not be claimed.
    Unavailable,
    /// The buffer length is not a multiple of the 16-byte block size.
    NotBlockAligned,
    /// The selected mode needs an IV or counter block and none was given.
    MissingIv,
}

/// A 16-byte sequence read as a big-endian 128-bit value.
pub open spec fn be_u128(s: Seq<u8>) -> u128 {
    ((s[0] as u128) << 120) | ((s[1] as u128) << 112) | ((s[2] as u128) << 104) | ((s[3] as u128) << 96) | ((s[4] as u128) << 88) | ((s[5] as u128) << 80) | ((s[6] as u128) << 72) | ((s[7] as u128) << 64) | ((s[8] as u128) << 56) | ((s[9] as u128) << 48) | ((s[10] as u128) << 40) | ((s[11] as u128) << 32) | ((s[12] as u128) << 24) | ((s[13] as u128) << 16) | ((s[14] as u128) << 8) | (s[15] as u128)
}

/// A 128-bit value written as 16 big-endian bytes.
pub open spec fn u128_bytes(v: u128) -> Seq<u8> {
    seq![
        (v >> 120) as u8,
        (v >> 112) as u8,
        (v >> 104) as u8,
        (v >> 96) as u8,
        (v >> 88) as u8,
        (v >> 80) as u8,
        (v >> 72) as u8,
        (v >> 64) as u8,
        (v >> 56) as u8,
        (v >> 48) as u8,
        (v >> 40) as u8,
        (v >> 32) as u8,
        (v >> 24) as u8,
        (v >> 16) as u8,
        (v >> 8) as u8,
        v as u8,
    ]
}

/// Addition modulo 2^128.
pub open spec fn wrap_add128(v: u128, n: u128) -> u128 {
    if v + n > u128::MAX {
        (v + n - 0x1_0000_0000_0000_0000_0000_0000_0000_0000) as u128
    } else {
        (v + n) as u128
    }
}

/// The counter block `n` blocks after `c`: big-endian addition modulo
/// 2^128.
pub open spec fn ctr_add_spec(c: Seq<u8>, n: u128) -> Seq<u8> {
    u128_bytes(wrap_add128(be_u128(c), n))
}

/// The hardware key scrambler's constant.
pub const SCRAMBLER_CONST: u128 = 0x1FF9E9AAC5FE0408024591DC5D52768A;

/// Left rotation of a 128-bit value.
pub open spec fn rotl128(v: u128, n: u128) -> u128 {
    (v << n) | (v >> (128 - n))
}

/// The key scrambler: the effective normal key derived from a KeyX/KeyY
/// pair.
pub open spec fn scramble(kx: Seq<u8>, ky: Seq<u8>) -> Seq<u8> {
    u128_bytes(rotl128(wrap_add128(rotl128(be_u128(kx), 2) ^ be_u128(ky), SCRAMBLER_CONST), 87))
}

/// ECB: every block transformed independently.
pub open spec fn ecb_crypt(key: Seq<u8>, dir: Direction, data: Seq<u8>) -> Seq<u8>
    decreases data.len(),
{
    if data.len() < 16 {
        Seq::empty()
    } else {
        crypt_block(key, dir, data.subrange(0, 16)) + ecb_crypt(
            key,
            dir,
            data.subrange(16, data.len() as int),
        )
    }
}

/// One block, encrypted or decrypted.
pub open spec fn crypt_block(key: Seq<u8>, dir: Direction, b: Seq<u8>) -> Seq<u8> {
    match dir {
        Direction::Encrypt => aes_encrypt_block(key, b),
        Direction::Decrypt => aes_decrypt_block(key, b),
    }
}

/// CBC encryption: each plaintext block is XORed with the previous
/// ciphertext block (the IV for the first) before the cipher.
pub open spec fn cbc_encrypt(key: Seq<u8>, prev: Seq<u8>, data: Seq<u8>) -> Seq<u8>
    decreases data.len(),
{
    if data.len() < 16 {
        Seq::empty()
    } else {
        let c = aes_encrypt_block(key, xor_block(data.subrange(0, 16), prev));
        c + cbc_encrypt(key, c, data.subrange(16, data.len() as int))
    }
}

/// CBC decryption: the inverse cipher of each block is XORed with the
/// previous ciphertext block (the IV for the first).
pub open spec fn cbc_decrypt(key: Seq<u8>, prev: Seq<u8>, data: Seq<u8>) -> Seq<u8>
    decreases data.len(),
{
    if data.len() < 16 {
        Seq::empty()
    } else {
        let p = xor_block(aes_decrypt_block(key, data.subrange(0, 16)), prev);
        p + cbc_decrypt(key, data.subrange(0, 16), data.subrange(16, data.len() as int))
    }
}

/// CTR: each block is XORed with the cipher of the current counter block;
/// the counter advances by one per block. Encryption and decryption are the
/// same operation.
pub open spec fn ctr_crypt(key: Seq<u8>, ctr: Seq<u8>, data: Seq<u8>) -> Seq<u8>
    decreases data.len(),
{
    if data.len() < 16 {
        Seq::empty()
    } else {
        xor_block(data.subrange(0, 16), aes_encrypt_block(key, ctr)) + ctr_crypt(
            key,
            ctr_add_spec(ctr, 1),
            data.subrange(16, data.len() as int),
        )
    }
}

/// The raw output of a cipher call, before byte-order correction.
pub open spec fn crypt_mode(
    key: Seq<u8>,
    mode: Mode,
    dir: Direction,
    data: Seq<u8>,
    iv: Seq<u8>,
) -> Seq<u8> {
    match mode {
        Mode::ECB => ecb_crypt(key, dir, data),
        Mode::CBC => match dir {
            Direction::Encrypt => cbc_encrypt(key, iv, data),
            Direction::Decrypt => cbc_decrypt(key, iv, data),
        },
        Mode::CTR => ctr_crypt(key, iv, data),
    }
}

/// Every aligned 4-byte group with its bytes reversed: the engine's native
/// word order.
pub open spec fn word_swap(s: Seq<u8>) -> Seq<u8> {
    Seq::new(s.len(), |i: int| s[4 * (i / 4) + (3 - (i % 4))])
}

/// What a cipher call leaves in the buffer: the mode's output, with each
/// 32-bit word's bytes reversed when little-endian output is selected.
pub open spec fn spec_crypt128(
    key: Seq<u8>,
    mode: Mode,
    dir: Direction,
    data: Seq<u8>,
    iv: Seq<u8>,
    le: bool,
) -> Seq<u8> {
    if le {
        word_swap(crypt_mode(key, mode, dir, data, iv))
    } else {
        crypt_mode(key, mode, dir, data, iv)
    }
}

/// The view of an optional IV argument.
pub open spec fn opt_iv(iv: Option<&Vec<u8>>) -> Seq<u8> {
    match iv {
        Some(v) => v@,
        None => Seq::empty(),
    }
}

/// The number of complete 16-byte blocks in the buffer: its length divided
/// by 16 if that length is a positive multiple of 16, absent otherwise.
pub fn buf_num_blocks(buf: &Vec<u8>) -> (r: Option<usize>)
    ensures
        buf@.len() > 0 && buf@.len() % 16 == 0 ==> r == Some((buf@.len() / 16) as usize),
        !(buf@.len() > 0 && buf@.len() % 16 == 0) ==> r is None,
{
    let len = buf.len();
    if len > 0 && len % 16 == 0 {
        Some(len / 16)
    } else {
        None
    }
}

fn be_u128_ex(s: &Vec<u8>) -> (r: u128)
    requires
        s@.len() == 16,
    ensures
        r == be_u128(s@),
{
    ((s[0] as u128) << 120u128) | ((s[1] as u128) << 112u128) | ((s[2] as u128) << 104u128) | ((s[3] as u128) << 96u128) | ((s[4] as u128) << 88u128) | ((s[5] as u128) << 80u128) | ((s[6] as u128) << 72u128) | ((s[7] as u128) << 64u128) | ((s[8] as u128) << 56u128) | ((s[9] as u128) << 48u128) | ((s[10] as u128) << 40u128) | ((s[11] as u128) << 32u128) | ((s[12] as u128) << 24u128) | ((s[13] as u128) << 16u128) | ((s[14] as u128) << 8u128) | (s[15] as u128)
}

fn u128_bytes_ex(v: u128) -> (r: Vec<u8>)
    ensures
        r@ == u128_bytes(v),
{
    let mut r: Vec<u8> = Vec::new();
    r.push((v >> 120u128) as u8);
    r.push((v >> 112u128) as u8);
    r.push((v >> 104u128) as u8);
    r.push((v >> 96u128) as u8);
    r.push((v >> 88u128) as u8);
    r.push((v >> 80u128) as u8);
    r.push((v >> 72u128) as u8);
    r.push((v >> 64u128) as u8);
    r.push((v >> 56u128) as u8);
    r.push((v >> 48u128) as u8);
    r.push((v >> 40u128) as u8);
    r.push((v >> 32u128) as u8);
    r.push((v >> 24u128) as u8);
    r.push((v >> 16u128) as u8);
    r.push((v >> 8u128) as u8);
    r.push(v as u8);
    proof {
        assert(r@ =~= u128_bytes(v));
    }
    r
}

fn wrap_add128_ex(v: u128, n: u128) -> (r: u128)
    ensures
        r == wrap_add128(v, n),
{
    v.wrapping_add(n)
}

/// The counter value `blocks` blocks after `ctr`: 128-bit big-endian
/// addition, wrapping modulo 2^128. The engine never retains counter state,
/// so a caller streaming across several calls advances it with this.
pub fn ctr_add(ctr: &Vec<u8>, blocks: usize) -> (r: Vec<u8>)
    requires
        ctr@.len() == 16,
    ensures
        r@ == ctr_add_spec(ctr@, blocks as u128),
{
    u128_bytes_ex(wrap_add128_ex(be_u128_ex(ctr), blocks as u128))
}

/// The crypto engine context: the staged key and the output byte-order
/// flag. Reconfiguration consumes the context and yields a new one.
pub struct AesContext {
    pub key: Vec<u8>,
    pub output_le: bool,
}

impl AesContext {
    /// A context is well formed when it stages a full 128-bit key.
    pub open spec fn wf(self) -> bool {
        self.key@.len() == 16
    }

    /// Claims the crypto hardware block. In this model the block is always
    /// free, so the claim always succeeds; the key slot starts zeroed and
    /// output byte order starts corrected.
    pub fn new() -> (r: Result<AesContext, AesError>)
        ensures
            r is Ok,
            r matches Ok(c) ==> c.wf() && c.output_le == false && c.key@ == Seq::new(
                16,
                |i: int| 0u8,
            ),
    {
        let key: Vec<u8> = vec![0u8; 16];
        proof {
            assert(key@ =~= Seq::new(16, |i: int| 0u8));
        }
        Ok(AesContext { key, output_le: false })
    }

    /// Stages the key derived from `keyx` and `keyy` by the hardware key
    /// scrambler, fully replacing any previously staged key.
    pub fn with_keypair(self, keyx: &Vec<u8>, keyy: &Vec<u8>) -> (r: AesContext)
        requires
            keyx@.len() == 16,
            keyy@.len() == 16,
        ensures
            r.key@ == scramble(keyx@, keyy@),
            r.output_le == self.output_le,
            r.wf(),
    {
        let x = be_u128_ex(keyx);
        let y = be_u128_ex(keyy);
        let rot = (x << 2u128) | (x >> 126u128);
        let sum = wrap_add128_ex(rot ^ y, SCRAMBLER_CONST);
        let n = (sum << 87u128) | (sum >> 41u128);
        assert(n == rotl128(wrap_add128(rotl128(be_u128(keyx@), 2) ^ be_u128(keyy@),
            SCRAMBLER_CONST), 87));
        AesContext { key: u128_bytes_ex(n), output_le: self.output_le }
    }

    /// Stages a precomputed normal key directly, bypassing derivation and
    /// fully replacing any previously staged key.
    pub fn with_normalkey(self, key: &Vec<u8>) -> (r: AesContext)
        requires
            key@.len() == 16,
        ensures
            r.key@ == key@,
            r.output_le == self.output_le,
            r.wf(),
    {
        let mut k: Vec<u8> = Vec::new();
        let mut i: usize = 0;
        while i < 16
            invariant
                key@.len() == 16,
                i <= 16,
                k@.len() == i,
                forall|j: int| 0 <= j < i ==> k@[j] == key@[j],
            decreases 16 - i,
        {
            k.push(key[i]);
            i = i + 1;
        }
        proof {
            assert(k@ =~= key@);
        }
        AesContext { key: k, output_le: self.output_le }
    }

    /// Selects whether output words keep the engine's native (reversed)
    /// byte order within each 32-bit word. The default, false, is the
    /// corrected order.
    pub fn with_output_le(self, le: bool) -> (r: AesContext)
        ensures
            r.key@ == self.key@,
            r.output_le == le,
    {
        AesContext { key: self.key, output_le: le }
    }
}

fn copy16(v: &Vec<u8>) -> (r: Vec<u8>)
    requires
        v@.len() == 16,
    ensures
        r@ == v@,
{
    let mut r: Vec<u8> = Vec::new();
    let mut i: usize = 0;
    while i < 16
        invariant
            v@.len() == 16,
            i <= 16,
            r@.len() == i,
            forall|j: int| 0 <= j < i ==> r@[j] == v@[j],
        decreases 16 - i,
    {
        r.push(v[i]);
        i = i + 1;
    }
    proof {
        assert(r@ =~= v@);
    }
    r
}

fn get_block(buf: &Vec<u8>, i: usize) -> (r: Vec<u8>)
    requires
        16 * i + 16 <= buf@.len(),
    ensures
        r@ == buf@.subrange(16 * i as int, 16 * i as int + 16),
{
    let bl: usize = buf.len();
    let base: usize = 16 * i;
    let mut r: Vec<u8> = Vec::new();
    let mut j: usize = 0;
    while j < 16
        invariant
            base == 16 * i,
            base + 16 <= bl,
            bl == buf@.len(),
            j <= 16,
            r@.len() == j,
            forall|k: int| 0 <= k < j ==> r@[k] == buf@[16 * i + k],
        decreases 16 - j,
    {
        r.push(buf[base + j]);
        j = j + 1;
    }
    proof {
        assert(r@ =~= buf@.subrange(16 * i as int, 16 * i as int + 16));
    }
    r
}

fn xor16_ex(a: &Vec<u8>, b: &Vec<u8>) -> (r: Vec<u8>)
    requires
        a@.len() == 16,
        b@.len() == 16,
    ensures
        r@ == xor_block(a@, b@),
{
    let mut r: Vec<u8> = Vec::new();
    let mut j: usize = 0;
    while j < 16
        invariant
            a@.len() == 16,
            b@.len() == 16,
            j <= 16,
            r@.len() == j,
            forall|k: int| 0 <= k < j ==> r@[k] == (a@[k] ^ b@[k]),
        decreases 16 - j,
    {
        r.push(a[j] ^ b[j]);
        j = j + 1;
    }
    proof {
        assert(r@ =~= xor_block(a@, b@));
    }
    r
}

fn word_swap_ex(s: &Vec<u8>) -> (r: Vec<u8>)
    requires
        s@.len() % 4 == 0,
    ensures
        r@ == word_swap(s@),
{
    let len = s.len();
    let words = len / 4;
    assert(4 * words == len);
    let mut r: Vec<u8> = Vec::new();
    let mut w: usize = 0;
    while w < words
        invariant
            s@.len() % 4 == 0,
            words == s@.len() / 4,
            len == s@.len(),
            4 * words == len,
            w <= words,
            r@.len() == 4 * w,
            forall|k: int| 0 <= k < 4 * w ==> r@[k] == s@[4 * (k / 4) + (3 - (k % 4))],
        decreases words - w,
    {
        r.push(s[4 * w + 3]);
        r.push(s[4 * w + 2]);
        r.push(s[4 * w + 1]);
        r.push(s[4 * w]);
        proof {
            assert(forall|k: int|
                0 <= k < 4 * w + 4 ==> r@[k] == s@[4 * (k / 4) + (3 - (k % 4))]);
        }
        w = w + 1;
    }
    proof {
        assert(r@ =~= word_swap(s@));
    }
    r
}

impl AesContext {
    /// Transforms the buffer in place, one 16-byte block at a time, in the
    /// given mode and direction. ECB accepts and ignores an IV; CBC needs an
    /// IV and CTR needs an initial counter block, and both are refused
    /// without one. A buffer whose length is not a multiple of 16 is
    /// refused. On an error the buffer is untouched.
    #[verifier::rlimit(100)]
    pub fn crypt128(
        &self,
        mode: Mode,
        direction: Direction,
        buf: &mut Vec<u8>,
        iv: Option<&Vec<u8>>,
    ) -> (r: Result<(), AesError>)
        requires
            self.wf(),
            iv matches Some(v) ==> v@.len() == 16,
        ensures
            r is Ok <==> (old(buf)@.len() % 16 == 0 && ((mode == Mode::CBC || mode == Mode::CTR)
                ==> iv is Some)),
            old(buf)@.len() % 16 != 0 ==> r == Result::<(), AesError>::Err(
                AesError::NotBlockAligned,
            ) && final(buf)@ == old(buf)@,
            old(buf)@.len() % 16 == 0 && (mode == Mode::CBC || mode == Mode::CTR) && iv is None
                ==> r == Result::<(), AesError>::Err(AesError::MissingIv) && final(buf)@ == old(
                buf,
            )@,
            r is Ok ==> final(buf)@ == spec_crypt128(
                self.key@,
                mode,
                direction,
                old(buf)@,
                opt_iv(iv),
                self.output_le,
            ),
    {
        let len = buf.len();
        if len % 16 != 0 {
            return Err(AesError::NotBlockAligned);
        }
        let needs_iv = matches!(mode, Mode::CBC) || matches!(mode, Mode::CTR);
        if needs_iv && iv.is_none() {
            return Err(AesError::MissingIv);
        }
        let w = expand_key(&self.key);
        let ghost key = self.key@;
        let ghost data = buf@;
        let ghost ivs = opt_iv(iv);
        let nblocks = len / 16;
        let mut out: Vec<u8> = Vec::new();
        match mode {
            Mode::ECB => {
                proof {
                    assert(data.subrange(0, data.len() as int) =~= data);
                    assert(Seq::<u8>::empty() + ecb_crypt(key, direction, data) =~= ecb_crypt(
                        key,
                        direction,
                        data,
                    ));
                }
                let mut i: usize = 0;
                while i < nblocks
                    invariant
                        w@.len() == 176,
                        key.len() == 16,
                        forall|r: int|
                            0 <= r < 11 ==> w@.subrange(16 * r, 16 * r + 16) == round_key(key, r),
                        data == buf@,
                        data.len() % 16 == 0,
                        nblocks == data.len() / 16,
                        i <= nblocks,
                        out@.len() == 16 * i,
                        ecb_crypt(key, direction, data) == out@ + ecb_crypt(
                            key,
                            direction,
                            data.subrange(16 * i as int, data.len() as int),
                        ),
                    decreases nblocks - i,
                {
                    let blk = get_block(buf, i);
                    let mut eb = match direction {
                        Direction::Encrypt => encrypt_block(&w, &blk, Ghost(key)),
                        Direction::Decrypt => decrypt_block(&w, &blk, Ghost(key)),
                    };
                    proof {
                        let rem = data.subrange(16 * i as int, data.len() as int);
                        assert(rem.subrange(0, 16) =~= blk@);
                        assert(rem.subrange(16, rem.len() as int) =~= data.subrange(
                            16 * (i + 1) as int,
                            data.len() as int,
                        ));
                        lemma_crypt_block_len(key, blk@);
                        assert(eb@.len() == 16);
                        assert((out@ + eb@) + ecb_crypt(
                            key,
                            direction,
                            data.subrange(16 * (i + 1) as int, data.len() as int),
                        ) =~= out@ + ecb_crypt(key, direction, rem));
                    }
                    out.append(&mut eb);
                    i = i + 1;
                }
                proof {
                    assert(data.subrange(16 * nblocks as int, data.len() as int)
                        =~= Seq::<u8>::empty());
                    assert(out@ == ecb_crypt(key, direction, data));
                }
            },
            Mode::CBC => {
                let ivv = match iv {
                    Some(v) => copy16(v),
                    None => {
                        proof {
                            assert(false);
                        }
                        Vec::new()
                    },
                };
                let mut prev = ivv;
                proof {
                    assert(data.subrange(0, data.len() as int) =~= data);
                    assert(Seq::<u8>::empty() + cbc_encrypt(key, ivs, data) =~= cbc_encrypt(
                        key,
                        ivs,
                        data,
                    ));
                    assert(Seq::<u8>::empty() + cbc_decrypt(key, ivs, data) =~= cbc_decrypt(
                        key,
                        ivs,
                        data,
                    ));
                }
                let mut i: usize = 0;
                while i < nblocks
                    invariant
                        w@.len() == 176,
                        key.len() == 16,
                        forall|r: int|
                            0 <= r < 11 ==> w@.subrange(16 * r, 16 * r + 16) == round_key(key, r),
                        data == buf@,
                        data.len() % 16 == 0,
                        nblocks == data.len() / 16,
                        i <= nblocks,
                        out@.len() == 16 * i,
                        prev@.len() == 16,
                        matches!(direction, Direction::Encrypt) ==> cbc_encrypt(key, ivs, data)
                            == out@ + cbc_encrypt(
                            key,
                            prev@,
                            data.subrange(16 * i as int, data.len() as int),
                        ),
                        matches!(direction, Direction::Decrypt) ==> cbc_decrypt(key, ivs, data)
                            == out@ + cbc_decrypt(
                            key,
                            prev@,
                            data.subrange(16 * i as int, data.len() as int),
                        ),
                    decreases nblocks - i,
                {
                    let blk = get_block(buf, i);
                    proof {
                        let rem = data.subrange(16 * i as int, data.len() as int);
                        assert(rem.subrange(0, 16) =~= blk@);
                        assert(rem.subrange(16, rem.len() as int) =~= data.subrange(
                            16 * (i + 1) as int,
                            data.len() as int,
                        ));
                    }
                    match direction {
                        Direction::Encrypt => {
                            let x = xor16_ex(&blk, &prev);
                            let cb = encrypt_block(&w, &x, Ghost(key));
                            proof {
                                lemma_crypt_block_len(key, xor_block(blk@, prev@));
                                assert(cb@.len() == 16);
                                assert((out@ + cb@) + cbc_encrypt(
                                    key,
                                    cb@,
                                    data.subrange(16 * (i + 1) as int, data.len() as int),
                                ) =~= out@ + cbc_encrypt(
                                    key,
                                    prev@,
                                    data.subrange(16 * i as int, data.len() as int),
                                ));
                            }
                            let mut tmp = copy16(&cb);
                            out.append(&mut tmp);
                            prev = cb;
                        },
                        Direction::Decrypt => {
                            let db = decrypt_block(&w, &blk, Ghost(key));
                            proof {
                                lemma_crypt_block_len(key, blk@);
                            }
                            let mut pb = xor16_ex(&db, &prev);
                            proof {
                                assert(pb@.len() == 16);
                                assert((out@ + pb@) + cbc_decrypt(
                                    key,
                                    blk@,
                                    data.subrange(16 * (i + 1) as int, data.len() as int),
                                ) =~= out@ + cbc_decrypt(
                                    key,
                                    prev@,
                                    data.subrange(16 * i as int, data.len() as int),
                                ));
                            }
                            out.append(&mut pb);
                            prev = blk;
                        },
                    }
                    i = i + 1;
                }
                proof {
                    assert(data.subrange(16 * nblocks as int, data.len() as int)
                        =~= Seq::<u8>::empty());
                    assert(out@ == crypt_mode(key, mode, direction, data, ivs));
                }
            },
            Mode::CTR => {
                let mut cur = match iv {
                    Some(v) => copy16(v),
                    None => {
                        proof {
                            assert(false);
                        }
                        Vec::new()
                    },
                };
                proof {
                    assert(data.subrange(0, data.len() as int) =~= data);
                    assert(Seq::<u8>::empty() + ctr_crypt(key, ivs, data) =~= ctr_crypt(
                        key,
                        ivs,
                        data,
                    ));
                }
                let mut i: usize = 0;
                while i < nblocks
                    invariant
                        w@.len() == 176,
                        key.len() == 16,
                        forall|r: int|
                            0 <= r < 11 ==> w@.subrange(16 * r, 16 * r + 16) == round_key(key, r),
                        data == buf@,
                        data.len() % 16 == 0,
                        nblocks == data.len() / 16,
                        i <= nblocks,
                        out@.len() == 16 * i,
                        cur@.len() == 16,
                        ctr_crypt(key, ivs, data) == out@ + ctr_crypt(
                            key,
                            cur@,
                            data.subrange(16 * i as int, data.len() as int),
                        ),
                    decreases nblocks - i,
                {
                    let blk = get_block(buf, i);
                    let ks = encrypt_block(&w, &cur, Ghost(key));
                    proof {
                        lemma_crypt_block_len(key, cur@);
                    }
                    let mut ob = xor16_ex(&blk, &ks);
                    proof {
                        let rem = data.subrange(16 * i as int, data.len() as int);
                        assert(rem.subrange(0, 16) =~= blk@);
                        assert(rem.subrange(16, rem.len() as int) =~= data.subrange(
                            16 * (i + 1) as int,
                            data.len() as int,
                        ));
                        assert(ob@.len() == 16);
                        assert((out@ + ob@) + ctr_crypt(
                            key,
                            ctr_add_spec(cur@, 1),
                            data.subrange(16 * (i + 1) as int, data.len() as int),
                        ) =~= out@ + ctr_crypt(
                            key,
                            cur@,
                            data.subrange(16 * i as int, data.len() as int),
                        ));
                    }
                    out.append(&mut ob);
                    cur = ctr_add(&cur, 1);
                    proof {
                        assert(cur@.len() == 16);
                    }
                    i = i + 1;
                }
                proof {
                    assert(data.subrange(16 * nblocks as int, data.len() as int)
                        =~= Seq::<u8>::empty());
                    assert(out@ == ctr_crypt(key, ivs, data));
                }
            },
        }
        if self.output_le {
            proof {
                assert(out@.len() % 4 == 0);
            }
            let swapped = word_swap_ex(&out);
            *buf = swapped;
        } else {
            *buf = out;
        }
        Ok(())
    }
}

/// A 128-bit value survives the round trip through its big-endian bytes.
proof fn lemma_be_of_bytes(v: u128)
    ensures
        be_u128(u128_bytes(v)) == v,
{
    assert(((((v >> 120) as u8) as u128) << 120) | ((((v >> 112) as u8) as u128) << 112) | ((((v >> 104) as u8) as u128) << 104) | ((((v >> 96) as u8) as u128) << 96) | ((((v >> 88) as u8) as u128) << 88) | ((((v >> 80) as u8) as u128) << 80) | ((((v >> 72) as u8) as u128) << 72) | ((((v >> 64) as u8) as u128) << 64) | ((((v >> 56) as u8) as u128) << 56) | ((((v >> 48) as u8) as u128) << 48) | ((((v >> 40) as u8) as u128) << 40) | ((((v >> 32) as u8) as u128) << 32) | ((((v >> 24) as u8) as u128) << 24) | ((((v >> 16) as u8) as u128) << 16) | ((((v >> 8) as u8) as u128) << 8) | ((v as u8) as u128) == v) by (bit_vector);
}

/// A 16-byte sequence survives the round trip through its big-endian value.
proof fn lemma_bytes_of_be(s: Seq<u8>)
    requires
        s.len() == 16,
    ensures
        u128_bytes(be_u128(s)) == s,
{
    let b0 = s[0];
    let b1 = s[1];
    let b2 = s[2];
    let b3 = s[3];
    let b4 = s[4];
    let b5 = s[5];
    let b6 = s[6];
    let b7 = s[7];
    let b8 = s[8];
    let b9 = s[9];
    let b10 = s[10];
    let b11 = s[11];
    let b12 = s[12];
    let b13 = s[13];
    let b14 = s[14];
    let b15 = s[15];
    let v = be_u128(s);
    assert((v >> 120) as u8 == b0 && (v >> 112) as u8 == b1 && (v >> 104) as u8 == b2 && (v >> 96) as u8 == b3 && (v >> 88) as u8 == b4 && (v >> 80) as u8 == b5 && (v >> 72) as u8 == b6 && (v >> 64) as u8 == b7 && (v >> 56) as u8 == b8 && (v >> 48) as u8 == b9 && (v >> 40) as u8 == b10 && (v >> 32) as u8 == b11 && (v >> 24) as u8 == b12 && (v >> 16) as u8 == b13 && (v >> 8) as u8 == b14 && v as u8 == b15) by (bit_vector)
        requires
            v == ((b0 as u128) << 120) | ((b1 as u128) << 112) | ((b2 as u128) << 104) | ((b3 as u128) << 96) | ((b4 as u128) << 88) | ((b5 as u128) << 80) | ((b6 as u128) << 72) | ((b7 as u128) << 64) | ((b8 as u128) << 56) | ((b9 as u128) << 48) | ((b10 as u128) << 40) | ((b11 as u128) << 32) | ((b12 as u128) << 24) | ((b13 as u128) << 16) | ((b14 as u128) << 8) | (b15 as u128),
    ;
    assert(u128_bytes(v) =~= s);
}

/// Advancing a counter by `m` blocks and then by `n` equals advancing it by
/// `m + n` at once.
pub proof fn lemma_ctr_add_compose(c: Seq<u8>, m: u128, n: u128)
    requires
        c.len() == 16,
        m + n <= u128::MAX,
    ensures
        ctr_add_spec(ctr_add_spec(c, m), n) == ctr_add_spec(c, (m + n) as u128),
{
    let v = be_u128(c);
    lemma_be_of_bytes(wrap_add128(v, m));
    assert(wrap_add128(wrap_add128(v, m), n) == wrap_add128(v, (m + n) as u128)) by (bit_vector)
        requires
            m + n <= u128::MAX,
    ;
}

/// Advancing a counter by zero blocks leaves it unchanged.
pub proof fn lemma_ctr_add_zero(c: Seq<u8>)
    requires
        c.len() == 16,
    ensures
        ctr_add_spec(c, 0) == c,
{
    lemma_bytes_of_be(c);
}

/// CTR output has the length of its input.
proof fn lemma_ctr_crypt_len(key: Seq<u8>, ctr: Seq<u8>, data: Seq<u8>)
    requires
        data.len() % 16 == 0,
    ensures
        ctr_crypt(key, ctr, data).len() == data.len(),
    decreases data.len(),
{
    if data.len() >= 16 {
        lemma_ctr_crypt_len(key, ctr_add_spec(ctr, 1), data.subrange(16, data.len() as int));
    }
}

/// Round-trip law for CTR mode: applying the CTR transformation twice with
/// the same key and initial counter returns the original buffer. Since CTR
/// encryption and decryption are the same operation, this is the
/// decrypt-after-encrypt law for every block-aligned buffer.
pub proof fn lemma_ctr_round_trip(key: Seq<u8>, ctr: Seq<u8>, data: Seq<u8>)
    requires
        data.len() % 16 == 0,
    ensures
        ctr_crypt(key, ctr, ctr_crypt(key, ctr, data)) == data,
    decreases data.len(),
{
    let e = ctr_crypt(key, ctr, data);
    lemma_ctr_crypt_len(key, ctr, data);
    if data.len() < 16 {
        assert(ctr_crypt(key, ctr, e) =~= data);
    } else {
        let ks = aes_encrypt_block(key, ctr);
        let first = data.subrange(0, 16);
        let rest = data.subrange(16, data.len() as int);
        let c1 = xor_block(first, ks);
        let next = ctr_add_spec(ctr, 1);
        assert(e.subrange(0, 16) =~= c1);
        assert(e.subrange(16, e.len() as int) =~= ctr_crypt(key, next, rest));
        assert forall|i: int| 0 <= i < 16 implies xor_block(c1, ks)[i] == first[i] by {
            lemma_xor_involution(first[i], ks[i]);
        }
        assert(xor_block(c1, ks) =~= first);
        lemma_ctr_round_trip(key, next, rest);
        assert(ctr_crypt(key, ctr, e) =~= data);
    }
}

/// Streaming law for CTR mode: one call over a whole buffer equals two
/// calls over its halves, when the second call's counter is the first
/// counter advanced by the number of blocks in the first half.
pub proof fn lemma_ctr_split(key: Seq<u8>, ctr: Seq<u8>, d1: Seq<u8>, d2: Seq<u8>)
    requires
        ctr.len() == 16,
        d1.len() % 16 == 0,
        d1.len() < 0x1_0000_0000_0000_0000,
    ensures
        ctr_crypt(key, ctr, d1 + d2) == ctr_crypt(key, ctr, d1) + ctr_crypt(
            key,
            ctr_add_spec(ctr, (d1.len() / 16) as u128),
            d2,
        ),
    decreases d1.len(),
{
    if d1.len() < 16 {
        assert(d1 + d2 =~= d2);
        lemma_ctr_add_zero(ctr);
        assert(ctr_crypt(key, ctr, d1) + ctr_crypt(key, ctr_add_spec(ctr, 0), d2) =~= ctr_crypt(
            key,
            ctr,
            d2,
        ));
    } else {
        let whole = d1 + d2;
        let rest1 = d1.subrange(16, d1.len() as int);
        let next = ctr_add_spec(ctr, 1);
        assert(whole.subrange(0, 16) =~= d1.subrange(0, 16));
        assert(whole.subrange(16, whole.len() as int) =~= rest1 + d2);
        assert(next.len() == 16);
        lemma_ctr_split(key, next, rest1, d2);
        lemma_ctr_add_compose(ctr, 1, (rest1.len() / 16) as u128);
        assert(1 + rest1.len() / 16 == d1.len() / 16);
        assert(ctr_crypt(key, ctr, whole) =~= ctr_crypt(key, ctr, d1) + ctr_crypt(
            key,
            ctr_add_spec(ctr, (d1.len() / 16) as u128),
            d2,
        ));
    }
}

/// Byte-order law: with little-endian output selected, a cipher call's
/// result is the corrected-order result with each aligned 4-byte word's
/// bytes reversed — a per-word reversal, not a whole-buffer reversal.
pub proof fn lemma_output_le_word_reversal(
    key: Seq<u8>,
    mode: Mode,
    dir: Direction,
    data: Seq<u8>,
    iv: Seq<u8>,
)
    ensures
        spec_crypt128(key, mode, dir, data, iv, true) == word_swap(
            spec_crypt128(key, mode, dir, data, iv, false),
        ),
{
}

} // verus!
