//! The AES-128 block transformation the crypto engine performs.
//!
//! Blocks are 16-byte sequences in the standard column-major state order.
//! The field arithmetic of GF(2^8) is written as straight-line bit
//! operations, so the inversion laws of the round primitives are settled by
//! the bit-vector solver and lifted to whole blocks.

use vstd::prelude::*;

verus! {

/// Multiplication by x in GF(2^8) modulo the AES polynomial.
pub open spec fn xtime(b: u8) -> u8 {
    if b & 0x80 == 0x80 {
        (b << 1) ^ 0x1b
    } else {
        b << 1
    }
}

/// Multiplication in GF(2^8): the sum of the xtime chains of `a` selected
/// by the bits of `b`.
#[verifier::opaque]
pub open spec fn gmul(a: u8, b: u8) -> u8 {
    let a1 = xtime(a);
    let a2 = xtime(a1);
    let a3 = xtime(a2);
    let a4 = xtime(a3);
    let a5 = xtime(a4);
    let a6 = xtime(a5);
    let a7 = xtime(a6);
    (if b & 0x01 != 0 {
        a
    } else {
        0
    }) ^ (if b & 0x02 != 0 {
        a1
    } else {
        0
    }) ^ (if b & 0x04 != 0 {
        a2
    } else {
        0
    }) ^ (if b & 0x08 != 0 {
        a3
    } else {
        0
    }) ^ (if b & 0x10 != 0 {
        a4
    } else {
        0
    }) ^ (if b & 0x20 != 0 {
        a5
    } else {
        0
    }) ^ (if b & 0x40 != 0 {
        a6
    } else {
        0
    }) ^ (if b & 0x80 != 0 {
        a7
    } else {
        0
    })
}

/// The multiplicative inverse in GF(2^8) (with 0 mapped to 0), computed as
/// the 254th power by square and multiply.
#[verifier::opaque]
pub open spec fn ginv(x: u8) -> u8 {
    let x2 = gmul(x, x);
    let x4 = gmul(x2, x2);
    let x8 = gmul(x4, x4);
    let x16 = gmul(x8, x8);
    let x32 = gmul(x16, x16);
    let x64 = gmul(x32, x32);
    let x128 = gmul(x64, x64);
    gmul(x128, gmul(x64, gmul(x32, gmul(x16, gmul(x8, gmul(x4, x2))))))
}

/// Left rotation of a byte.
pub open spec fn rotl8(b: u8, n: u8) -> u8 {
    (b << n) | (b >> (8 - n))
}

/// The affine transformation of the S-box.
pub open spec fn aff(b: u8) -> u8 {
    b ^ rotl8(b, 1) ^ rotl8(b, 2) ^ rotl8(b, 3) ^ rotl8(b, 4) ^ 0x63
}

/// The inverse of the affine transformation.
pub open spec fn iaff(b: u8) -> u8 {
    rotl8(b, 1) ^ rotl8(b, 3) ^ rotl8(b, 6) ^ 0x05
}

/// The AES S-box: the affine transformation of the field inverse.
#[verifier::opaque]
pub open spec fn sbox(x: u8) -> u8 {
    aff(ginv(x))
}

/// The inverse S-box.
#[verifier::opaque]
pub open spec fn inv_sbox(y: u8) -> u8 {
    ginv(iaff(y))
}

/// Byte of the MixColumns product: row `j` of the matrix applied to one
/// column.
pub open spec fn mix0(a: u8, b: u8, c: u8, d: u8) -> u8 {
    xtime(a) ^ (xtime(b) ^ b) ^ c ^ d
}

pub open spec fn mix1(a: u8, b: u8, c: u8, d: u8) -> u8 {
    a ^ xtime(b) ^ (xtime(c) ^ c) ^ d
}

pub open spec fn mix2(a: u8, b: u8, c: u8, d: u8) -> u8 {
    a ^ b ^ xtime(c) ^ (xtime(d) ^ d)
}

pub open spec fn mix3(a: u8, b: u8, c: u8, d: u8) -> u8 {
    (xtime(a) ^ a) ^ b ^ c ^ xtime(d)
}

/// Multiplication by 9, 11, 13 and 14 in GF(2^8), as xtime chains.
pub open spec fn mul9(x: u8) -> u8 {
    xtime(xtime(xtime(x))) ^ x
}

pub open spec fn mul11(x: u8) -> u8 {
    xtime(xtime(xtime(x))) ^ xtime(x) ^ x
}

pub open spec fn mul13(x: u8) -> u8 {
    xtime(xtime(xtime(x))) ^ xtime(xtime(x)) ^ x
}

pub open spec fn mul14(x: u8) -> u8 {
    xtime(xtime(xtime(x))) ^ xtime(xtime(x)) ^ xtime(x)
}

/// Byte of the InvMixColumns product.
pub open spec fn imix0(a: u8, b: u8, c: u8, d: u8) -> u8 {
    mul14(a) ^ mul11(b) ^ mul13(c) ^ mul9(d)
}

pub open spec fn imix1(a: u8, b: u8, c: u8, d: u8) -> u8 {
    mul9(a) ^ mul14(b) ^ mul11(c) ^ mul13(d)
}

pub open spec fn imix2(a: u8, b: u8, c: u8, d: u8) -> u8 {
    mul13(a) ^ mul9(b) ^ mul14(c) ^ mul11(d)
}

pub open spec fn imix3(a: u8, b: u8, c: u8, d: u8) -> u8 {
    mul11(a) ^ mul13(b) ^ mul9(c) ^ mul14(d)
}

/// XOR with the same byte twice gives the byte back.
pub proof fn lemma_xor_involution(x: u8, k: u8)
    ensures
        (x ^ k) ^ k == x,
{
    assert((x ^ k) ^ k == x) by (bit_vector);
}

/// The S-box applied to every byte of a block.
pub open spec fn sub_bytes(s: Seq<u8>) -> Seq<u8> {
    Seq::new(s.len(), |i: int| sbox(s[i]))
}

/// The inverse S-box applied to every byte of a block.
pub open spec fn inv_sub_bytes(s: Seq<u8>) -> Seq<u8> {
    Seq::new(s.len(), |i: int| inv_sbox(s[i]))
}

/// Row `r` of the state rotated left by `r` positions (column-major order).
pub open spec fn shift_rows(s: Seq<u8>) -> Seq<u8> {
    seq![
        s[0], s[5], s[10], s[15],
        s[4], s[9], s[14], s[3],
        s[8], s[13], s[2], s[7],
        s[12], s[1], s[6], s[11],
    ]
}

/// Row `r` of the state rotated right by `r` positions.
pub open spec fn inv_shift_rows(s: Seq<u8>) -> Seq<u8> {
    seq![
        s[0], s[13], s[10], s[7],
        s[4], s[1], s[14], s[11],
        s[8], s[5], s[2], s[15],
        s[12], s[9], s[6], s[3],
    ]
}

/// The MixColumns matrix applied to every column of the state.
pub open spec fn mix_columns(s: Seq<u8>) -> Seq<u8> {
    Seq::new(
        16,
        |i: int|
            {
                let c = 4 * (i / 4);
                if i % 4 == 0 {
                    mix0(s[c], s[c + 1], s[c + 2], s[c + 3])
                } else if i % 4 == 1 {
                    mix1(s[c], s[c + 1], s[c + 2], s[c + 3])
                } else if i % 4 == 2 {
                    mix2(s[c], s[c + 1], s[c + 2], s[c + 3])
                } else {
                    mix3(s[c], s[c + 1], s[c + 2], s[c + 3])
                }
            },
    )
}

/// The inverse MixColumns matrix applied to every column.
pub open spec fn inv_mix_columns(s: Seq<u8>) -> Seq<u8> {
    Seq::new(
        16,
        |i: int|
            {
                let c = 4 * (i / 4);
                if i % 4 == 0 {
                    imix0(s[c], s[c + 1], s[c + 2], s[c + 3])
                } else if i % 4 == 1 {
                    imix1(s[c], s[c + 1], s[c + 2], s[c + 3])
                } else if i % 4 == 2 {
                    imix2(s[c], s[c + 1], s[c + 2], s[c + 3])
                } else {
                    imix3(s[c], s[c + 1], s[c + 2], s[c + 3])
                }
            },
    )
}

/// Bytewise XOR of two equal-length sequences.
pub open spec fn xor_block(a: Seq<u8>, b: Seq<u8>) -> Seq<u8> {
    Seq::new(a.len(), |i: int| a[i] ^ b[i])
}

/// The round constant of key-schedule round `r` (1-based): iterated xtime
/// of 1.
pub open spec fn rcon(r: int) -> u8
    decreases r,
{
    if r <= 1 {
        1
    } else {
        xtime(rcon(r - 1))
    }
}

/// Word `i` of the expanded key schedule, as 4 bytes. The first four words
/// are the key itself; every fourth word mixes in the rotated, substituted
/// previous word and the round constant.
pub open spec fn ks_word(key: Seq<u8>, i: int) -> Seq<u8>
    decreases i,
{
    if i < 4 {
        key.subrange(4 * i, 4 * i + 4)
    } else {
        let prev = ks_word(key, i - 1);
        let back = ks_word(key, i - 4);
        if i % 4 == 0 {
            let t = seq![
                sbox(prev[1]) ^ rcon(i / 4),
                sbox(prev[2]),
                sbox(prev[3]),
                sbox(prev[0]),
            ];
            Seq::new(4, |j: int| back[j] ^ t[j])
        } else {
            Seq::new(4, |j: int| back[j] ^ prev[j])
        }
    }
}

/// Every key-schedule word is 4 bytes.
pub proof fn lemma_ks_word_len(key: Seq<u8>, i: int)
    requires
        key.len() == 16,
        0 <= i,
    ensures
        ks_word(key, i).len() == 4,
    decreases i,
{
    if i >= 4 {
        lemma_ks_word_len(key, i - 1);
        lemma_ks_word_len(key, i - 4);
    }
}

/// The 16-byte key of round `r`: four consecutive schedule words.
pub open spec fn round_key(key: Seq<u8>, r: int) -> Seq<u8> {
    ks_word(key, 4 * r) + ks_word(key, 4 * r + 1) + ks_word(key, 4 * r + 2) + ks_word(
        key,
        4 * r + 3,
    )
}

/// One full encryption round.
pub open spec fn enc_round(s: Seq<u8>, k: Seq<u8>) -> Seq<u8> {
    xor_block(mix_columns(shift_rows(sub_bytes(s))), k)
}

/// The first `r` full rounds applied to the state.
pub open spec fn enc_rounds(key: Seq<u8>, s: Seq<u8>, r: int) -> Seq<u8>
    decreases r,
{
    if r <= 0 {
        s
    } else {
        enc_round(enc_rounds(key, s, r - 1), round_key(key, r))
    }
}

/// AES-128 encryption of one 16-byte block: initial key addition, nine full
/// rounds, and a final round without MixColumns.
#[verifier::opaque]
pub open spec fn aes_encrypt_block(key: Seq<u8>, b: Seq<u8>) -> Seq<u8> {
    xor_block(
        shift_rows(sub_bytes(enc_rounds(key, xor_block(b, round_key(key, 0)), 9))),
        round_key(key, 10),
    )
}

/// The inverse of one full encryption round.
pub open spec fn dec_round(s: Seq<u8>, k: Seq<u8>) -> Seq<u8> {
    inv_sub_bytes(inv_shift_rows(inv_mix_columns(xor_block(s, k))))
}

/// Undoes rounds `r` down to 1.
pub open spec fn dec_rounds(key: Seq<u8>, s: Seq<u8>, r: int) -> Seq<u8>
    decreases r,
{
    if r <= 0 {
        s
    } else {
        dec_rounds(key, dec_round(s, round_key(key, r)), r - 1)
    }
}

/// AES-128 decryption of one 16-byte block: each encryption step undone in
/// reverse order.
#[verifier::opaque]
pub open spec fn aes_decrypt_block(key: Seq<u8>, c: Seq<u8>) -> Seq<u8> {
    xor_block(
        dec_rounds(
            key,
            inv_sub_bytes(inv_shift_rows(xor_block(c, round_key(key, 10)))),
            9,
        ),
        round_key(key, 0),
    )
}

/// Undoing rounds preserves the block size.
proof fn lemma_dec_rounds_len_16(key: Seq<u8>, s: Seq<u8>, r: int)
    requires
        s.len() == 16,
        0 <= r,
    ensures
        dec_rounds(key, s, r).len() == 16,
    decreases r,
{
    if r > 0 {
        lemma_dec_rounds_len_16(key, dec_round(s, round_key(key, r)), r - 1);
    }
}

/// Block encryption and decryption both yield 16 bytes.
pub proof fn lemma_crypt_block_len(key: Seq<u8>, b: Seq<u8>)
    ensures
        aes_encrypt_block(key, b).len() == 16,
        aes_decrypt_block(key, b).len() == 16,
{
    reveal(aes_encrypt_block);
    reveal(aes_decrypt_block);
    lemma_dec_rounds_len_16(
        key,
        inv_sub_bytes(inv_shift_rows(xor_block(b, round_key(key, 10)))),
        9,
    );
}

fn xtime_ex(b: u8) -> (r: u8)
    ensures
        r == xtime(b),
{
    if b & 0x80 == 0x80 {
        (b << 1u8) ^ 0x1b
    } else {
        b << 1u8
    }
}

fn sbox_ex(x: u8) -> (r: u8)
    ensures
        r == sbox(x),
{
    proof {
        reveal(sbox);
    }
    let g = ginv_ex(x);
    g ^ ((g << 1u8) | (g >> 7u8)) ^ ((g << 2u8) | (g >> 6u8)) ^ ((g << 3u8) | (g >> 5u8)) ^ ((g
        << 4u8) | (g >> 4u8)) ^ 0x63
}

fn inv_sbox_ex(y: u8) -> (r: u8)
    ensures
        r == inv_sbox(y),
{
    proof {
        reveal(inv_sbox);
    }
    let t = ((y << 1u8) | (y >> 7u8)) ^ ((y << 3u8) | (y >> 5u8)) ^ ((y << 6u8) | (y >> 2u8))
        ^ 0x05;
    assert(t == iaff(y));
    ginv_ex(t)
}

fn gmul_ex(a: u8, b: u8) -> (r: u8)
    ensures
        r == gmul(a, b),
{
    proof {
        reveal(gmul);
    }
    let a1 = xtime_ex(a);
    let a2 = xtime_ex(a1);
    let a3 = xtime_ex(a2);
    let a4 = xtime_ex(a3);
    let a5 = xtime_ex(a4);
    let a6 = xtime_ex(a5);
    let a7 = xtime_ex(a6);
    (if b & 0x01 != 0 {
        a
    } else {
        0
    }) ^ (if b & 0x02 != 0 {
        a1
    } else {
        0
    }) ^ (if b & 0x04 != 0 {
        a2
    } else {
        0
    }) ^ (if b & 0x08 != 0 {
        a3
    } else {
        0
    }) ^ (if b & 0x10 != 0 {
        a4
    } else {
        0
    }) ^ (if b & 0x20 != 0 {
        a5
    } else {
        0
    }) ^ (if b & 0x40 != 0 {
        a6
    } else {
        0
    }) ^ (if b & 0x80 != 0 {
        a7
    } else {
        0
    })
}

fn ginv_ex(x: u8) -> (r: u8)
    ensures
        r == ginv(x),
{
    proof {
        reveal(ginv);
    }
    let x2 = gmul_ex(x, x);
    let x4 = gmul_ex(x2, x2);
    let x8 = gmul_ex(x4, x4);
    let x16 = gmul_ex(x8, x8);
    let x32 = gmul_ex(x16, x16);
    let x64 = gmul_ex(x32, x32);
    let x128 = gmul_ex(x64, x64);
    gmul_ex(x128, gmul_ex(x64, gmul_ex(x32, gmul_ex(x16, gmul_ex(x8, gmul_ex(x4, x2))))))
}

fn sub_bytes_ex(s: &Vec<u8>, inverse: bool) -> (r: Vec<u8>)
    requires
        s@.len() == 16,
    ensures
        !inverse ==> r@ == sub_bytes(s@),
        inverse ==> r@ == inv_sub_bytes(s@),
{
    let mut r: Vec<u8> = Vec::new();
    let mut i: usize = 0;
    while i < 16
        invariant
            s@.len() == 16,
            i <= 16,
            r@.len() == i,
            forall|j: int| 0 <= j < i ==> r@[j] == (if inverse {
                inv_sbox(s@[j])
            } else {
                sbox(s@[j])
            }),
        decreases 16 - i,
    {
        if inverse {
            r.push(inv_sbox_ex(s[i]));
        } else {
            r.push(sbox_ex(s[i]));
        }
        i = i + 1;
    }
    proof {
        if inverse {
            assert(r@ =~= inv_sub_bytes(s@));
        } else {
            assert(r@ =~= sub_bytes(s@));
        }
    }
    r
}

fn shift_rows_ex(s: &Vec<u8>, inverse: bool) -> (r: Vec<u8>)
    requires
        s@.len() == 16,
    ensures
        !inverse ==> r@ == shift_rows(s@),
        inverse ==> r@ == inv_shift_rows(s@),
{
    let mut r: Vec<u8> = Vec::new();
    if inverse {
        r.push(s[0]); r.push(s[13]); r.push(s[10]); r.push(s[7]);
        r.push(s[4]); r.push(s[1]); r.push(s[14]); r.push(s[11]);
        r.push(s[8]); r.push(s[5]); r.push(s[2]); r.push(s[15]);
        r.push(s[12]); r.push(s[9]); r.push(s[6]); r.push(s[3]);
        proof {
            assert(r@ =~= inv_shift_rows(s@));
        }
    } else {
        r.push(s[0]); r.push(s[5]); r.push(s[10]); r.push(s[15]);
        r.push(s[4]); r.push(s[9]); r.push(s[14]); r.push(s[3]);
        r.push(s[8]); r.push(s[13]); r.push(s[2]); r.push(s[7]);
        r.push(s[12]); r.push(s[1]); r.push(s[6]); r.push(s[11]);
        proof {
            assert(r@ =~= shift_rows(s@));
        }
    }
    r
}

fn mix_columns_ex(s: &Vec<u8>) -> (r: Vec<u8>)
    requires
        s@.len() == 16,
    ensures
        r@ == mix_columns(s@),
{
    let mut r: Vec<u8> = Vec::new();
    let mut c: usize = 0;
    while c < 4
        invariant
            s@.len() == 16,
            c <= 4,
            r@.len() == 4 * c,
            forall|j: int| 0 <= j < 4 * c ==> r@[j] == mix_columns(s@)[j],
        decreases 4 - c,
    {
        let a = s[4 * c];
        let b = s[4 * c + 1];
        let cc = s[4 * c + 2];
        let d = s[4 * c + 3];
        r.push(xtime_ex(a) ^ (xtime_ex(b) ^ b) ^ cc ^ d);
        r.push(a ^ xtime_ex(b) ^ (xtime_ex(cc) ^ cc) ^ d);
        r.push(a ^ b ^ xtime_ex(cc) ^ (xtime_ex(d) ^ d));
        r.push((xtime_ex(a) ^ a) ^ b ^ cc ^ xtime_ex(d));
        proof {
            assert(forall|j: int| 0 <= j < 4 * c + 4 ==> r@[j] == mix_columns(s@)[j]);
        }
        c = c + 1;
    }
    proof {
        assert(r@ =~= mix_columns(s@));
    }
    r
}

fn mul9_ex(x: u8) -> (r: u8)
    ensures
        r == mul9(x),
{
    xtime_ex(xtime_ex(xtime_ex(x))) ^ x
}

fn mul11_ex(x: u8) -> (r: u8)
    ensures
        r == mul11(x),
{
    xtime_ex(xtime_ex(xtime_ex(x))) ^ xtime_ex(x) ^ x
}

fn mul13_ex(x: u8) -> (r: u8)
    ensures
        r == mul13(x),
{
    xtime_ex(xtime_ex(xtime_ex(x))) ^ xtime_ex(xtime_ex(x)) ^ x
}

fn mul14_ex(x: u8) -> (r: u8)
    ensures
        r == mul14(x),
{
    xtime_ex(xtime_ex(xtime_ex(x))) ^ xtime_ex(xtime_ex(x)) ^ xtime_ex(x)
}

fn inv_mix_columns_ex(s: &Vec<u8>) -> (r: Vec<u8>)
    requires
        s@.len() == 16,
    ensures
        r@ == inv_mix_columns(s@),
{
    let mut r: Vec<u8> = Vec::new();
    let mut c: usize = 0;
    while c < 4
        invariant
            s@.len() == 16,
            c <= 4,
            r@.len() == 4 * c,
            forall|j: int| 0 <= j < 4 * c ==> r@[j] == inv_mix_columns(s@)[j],
        decreases 4 - c,
    {
        let a = s[4 * c];
        let b = s[4 * c + 1];
        let cc = s[4 * c + 2];
        let d = s[4 * c + 3];
        r.push(mul14_ex(a) ^ mul11_ex(b) ^ mul13_ex(cc) ^ mul9_ex(d));
        r.push(mul9_ex(a) ^ mul14_ex(b) ^ mul11_ex(cc) ^ mul13_ex(d));
        r.push(mul13_ex(a) ^ mul9_ex(b) ^ mul14_ex(cc) ^ mul11_ex(d));
        r.push(mul11_ex(a) ^ mul13_ex(b) ^ mul9_ex(cc) ^ mul14_ex(d));
        proof {
            assert(forall|j: int| 0 <= j < 4 * c + 4 ==> r@[j] == inv_mix_columns(s@)[j]);
        }
        c = c + 1;
    }
    proof {
        assert(r@ =~= inv_mix_columns(s@));
    }
    r
}

/// XORs the 16-byte state with round key `r` of the expanded schedule.
fn add_round_key_ex(s: &Vec<u8>, w: &Vec<u8>, r: usize) -> (out: Vec<u8>)
    requires
        s@.len() == 16,
        w@.len() == 176,
        r < 11,
    ensures
        out@ == xor_block(s@, w@.subrange(16 * r, 16 * r + 16)),
{
    let mut out: Vec<u8> = Vec::new();
    let mut j: usize = 0;
    while j < 16
        invariant
            s@.len() == 16,
            w@.len() == 176,
            r < 11,
            j <= 16,
            out@.len() == j,
            forall|i: int| 0 <= i < j ==> out@[i] == (s@[i] ^ w@[16 * r + i]),
        decreases 16 - j,
    {
        out.push(s[j] ^ w[16 * r + j]);
        j = j + 1;
    }
    proof {
        assert(out@ =~= xor_block(s@, w@.subrange(16 * r as int, 16 * r as int + 16)));
    }
    out
}

fn rcon_ex(k: u32) -> (r: u8)
    requires
        1 <= k,
    ensures
        r == rcon(k as int),
{
    let mut v: u8 = 1;
    let mut j: u32 = 1;
    while j < k
        invariant
            1 <= j <= k,
            v == rcon(j as int),
        decreases k - j,
    {
        v = xtime_ex(v);
        j = j + 1;
    }
    v
}

/// Expands a 16-byte key into the 176-byte round-key schedule.
pub fn expand_key(key: &Vec<u8>) -> (w: Vec<u8>)
    requires
        key@.len() == 16,
    ensures
        w@.len() == 176,
        forall|r: int| 0 <= r < 11 ==> w@.subrange(16 * r, 16 * r + 16) == round_key(key@, r),
{
    let mut w: Vec<u8> = Vec::new();
    let mut i: usize = 0;
    while i < 16
        invariant
            key@.len() == 16,
            i <= 16,
            w@.len() == i,
            forall|j: int| 0 <= j < i ==> w@[j] == key@[j],
        decreases 16 - i,
    {
        w.push(key[i]);
        i = i + 1;
    }
    proof {
        assert forall|j: int| 0 <= j < 4 implies w@.subrange(4 * j, 4 * j + 4) == ks_word(
            key@,
            j,
        ) by {
            assert(w@.subrange(4 * j, 4 * j + 4) =~= ks_word(key@, j));
        }
    }
    let mut word: usize = 4;
    while word < 44
        invariant
            key@.len() == 16,
            4 <= word <= 44,
            w@.len() == 4 * word,
            forall|j: int| 0 <= j < word ==> w@.subrange(4 * j, 4 * j + 4) == ks_word(key@, j),
        decreases 44 - word,
    {
        let ghost w_before = w@;
        let p0 = w[4 * (word - 1)];
        let p1 = w[4 * (word - 1) + 1];
        let p2 = w[4 * (word - 1) + 2];
        let p3 = w[4 * (word - 1) + 3];
        let b0 = w[4 * (word - 4)];
        let b1 = w[4 * (word - 4) + 1];
        let b2 = w[4 * (word - 4) + 2];
        let b3 = w[4 * (word - 4) + 3];
        proof {
            assert(p0 == ks_word(key@, word as int - 1)[0] && p1 == ks_word(key@, word as int - 1)[1]
                && p2 == ks_word(key@, word as int - 1)[2] && p3 == ks_word(key@, word as int - 1)[3]);
            assert(b0 == ks_word(key@, word as int - 4)[0] && b1 == ks_word(key@, word as int - 4)[1]
                && b2 == ks_word(key@, word as int - 4)[2] && b3 == ks_word(key@, word as int - 4)[3]);
        }
        if word % 4 == 0 {
            let rc = rcon_ex((word / 4) as u32);
            w.push(b0 ^ (sbox_ex(p1) ^ rc));
            w.push(b1 ^ sbox_ex(p2));
            w.push(b2 ^ sbox_ex(p3));
            w.push(b3 ^ sbox_ex(p0));
        } else {
            w.push(b0 ^ p0);
            w.push(b1 ^ p1);
            w.push(b2 ^ p2);
            w.push(b3 ^ p3);
        }
        proof {
            assert(w@.subrange(4 * word as int, 4 * word as int + 4) =~= ks_word(
                key@,
                word as int,
            ));
            assert forall|j: int| 0 <= j < word implies w@.subrange(4 * j, 4 * j + 4) == ks_word(
                key@,
                j,
            ) by {
                assert(w@.subrange(4 * j, 4 * j + 4) =~= w_before.subrange(4 * j, 4 * j + 4));
            }
        }
        word = word + 1;
    }
    proof {
        assert forall|r: int| 0 <= r < 11 implies w@.subrange(16 * r, 16 * r + 16) == round_key(
            key@,
            r,
        ) by {
            lemma_ks_word_len(key@, 4 * r);
            lemma_ks_word_len(key@, 4 * r + 1);
            lemma_ks_word_len(key@, 4 * r + 2);
            lemma_ks_word_len(key@, 4 * r + 3);
            assert(w@.subrange(16 * r, 16 * r + 16) =~= round_key(key@, r));
        }
    }
    w
}

/// Encrypts one 16-byte block with the expanded schedule of `key`.
pub fn encrypt_block(w: &Vec<u8>, block: &Vec<u8>, Ghost(key): Ghost<Seq<u8>>) -> (r: Vec<u8>)
    requires
        w@.len() == 176,
        block@.len() == 16,
        key.len() == 16,
        forall|r: int| 0 <= r < 11 ==> w@.subrange(16 * r, 16 * r + 16) == round_key(key, r),
    ensures
        r@ == aes_encrypt_block(key, block@),
{
    proof {
        reveal(aes_encrypt_block);
    }
    let mut state = add_round_key_ex(block, w, 0);
    assert(state@ == enc_rounds(key, xor_block(block@, round_key(key, 0)), 0));
    let mut round: usize = 1;
    while round < 10
        invariant
            w@.len() == 176,
            key.len() == 16,
            forall|r: int| 0 <= r < 11 ==> w@.subrange(16 * r, 16 * r + 16) == round_key(key, r),
            1 <= round <= 10,
            state@.len() == 16,
            state@ == enc_rounds(key, xor_block(block@, round_key(key, 0)), round as int - 1),
            block@.len() == 16,
        decreases 10 - round,
    {
        let t1 = sub_bytes_ex(&state, false);
        let t2 = shift_rows_ex(&t1, false);
        let t3 = mix_columns_ex(&t2);
        state = add_round_key_ex(&t3, w, round);
        assert(state@ == enc_rounds(key, xor_block(block@, round_key(key, 0)), round as int));
        round = round + 1;
    }
    let t1 = sub_bytes_ex(&state, false);
    let t2 = shift_rows_ex(&t1, false);
    add_round_key_ex(&t2, w, 10)
}

/// Decrypts one 16-byte block with the expanded schedule of `key`.
pub fn decrypt_block(w: &Vec<u8>, block: &Vec<u8>, Ghost(key): Ghost<Seq<u8>>) -> (r: Vec<u8>)
    requires
        w@.len() == 176,
        block@.len() == 16,
        key.len() == 16,
        forall|r: int| 0 <= r < 11 ==> w@.subrange(16 * r, 16 * r + 16) == round_key(key, r),
    ensures
        r@ == aes_decrypt_block(key, block@),
{
    proof {
        reveal(aes_decrypt_block);
    }
    let t1 = add_round_key_ex(block, w, 10);
    let t2 = shift_rows_ex(&t1, true);
    let mut state = sub_bytes_ex(&t2, true);
    let ghost s0 = state@;
    let mut round: usize = 9;
    while round > 0
        invariant
            w@.len() == 176,
            key.len() == 16,
            forall|r: int| 0 <= r < 11 ==> w@.subrange(16 * r, 16 * r + 16) == round_key(key, r),
            round <= 9,
            state@.len() == 16,
            dec_rounds(key, s0, 9) == dec_rounds(key, state@, round as int),
        decreases round,
    {
        let t1 = add_round_key_ex(&state, w, round);
        let t2 = inv_mix_columns_ex(&t1);
        let t3 = shift_rows_ex(&t2, true);
        state = sub_bytes_ex(&t3, true);
        round = round - 1;
    }
    add_round_key_ex(&state, w, 0)
}

} // verus!
