use aes::cipher::{KeyIvInit, StreamCipher};
use vstd::prelude::*;
use vstd::slice::slice_to_vec;

verus! {

broadcast use vstd::array::group_array_axioms;

/// Number of padding bytes appended to a buffer of length `len` for block
/// size `block_size`: enough to reach the next multiple of the block size,
/// and a full block when the length already is one.
pub open spec fn pad_count(len: nat, block_size: nat) -> nat
    recommends
        block_size > 0,
{
    (block_size - (len % block_size)) as nat
}

/// The padded form of `data`: the data followed by `pad_count` bytes, each
/// holding that count itself (a trailing-length-byte scheme).
pub open spec fn pad_spec(data: Seq<u8>, block_size: nat) -> Seq<u8>
    recommends
        block_size > 0,
{
    data + Seq::new(
        pad_count(data.len(), block_size),
        |i: int| pad_count(data.len(), block_size) as u8,
    )
}

/// The 16-byte little-endian counter-mode initialization block derived from
/// a 16-bit sequence value: the value's two bytes low-first, then zeros.
pub open spec fn iv_block_of(iv: u16) -> Seq<u8> {
    Seq::new(
        16,
        |i: int|
            if i == 0 {
                (iv & 0xff) as u8
            } else if i == 1 {
                (iv >> 8) as u8
            } else {
                0u8
            },
    )
}

/// Byte `i` of the keystream that AES-128 in little-endian 128-bit counter
/// mode generates from a 16-byte key and a 16-byte initialization block.
pub uninterp spec fn keystream_byte(key: Seq<u8>, iv_block: Seq<u8>, i: int) -> u8;

/// What decryption produces: each byte of the padded buffer XORed with the
/// keystream byte for its position.
pub open spec fn decrypt_spec(data: Seq<u8>, key: Seq<u8>, iv: u16) -> Seq<u8> {
    let padded = pad_spec(data, 16);
    Seq::new(padded.len(), |i: int| padded[i] ^ keystream_byte(key, iv_block_of(iv), i))
}

#[verifier::external_type_specification]
#[verifier::external_body]
pub struct ExStreamCipherError(aes::cipher::StreamCipherError);

/// Relies on `ctr::Ctr128LE<aes::Aes128>`: `cipher::KeyIvInit::new` accepts
/// any 16-byte key and 16-byte initialization block, and
/// `cipher::StreamCipher::try_apply_keystream` XORs the buffer in place with
/// a keystream that is a function of the key and the initialization block
/// alone. A fresh cipher's block counter starts at zero, so the keystream
/// cannot run out over a buffer that fits in memory and the call succeeds.
#[verifier::external_body]
fn apply_keystream(data: &mut Vec<u8>, key: &[u8; 16], iv_block: &[u8; 16]) -> (r: Result<
    (),
    aes::cipher::StreamCipherError,
>)
    ensures
        r is Ok,
        final(data)@.len() == old(data)@.len(),
        forall|i: int|
            0 <= i < old(data)@.len() ==> final(data)@[i] == (old(data)@[i] ^ keystream_byte(
                key@,
                iv_block@,
                i,
            )),
{
    let mut cipher = ctr::Ctr128LE::<aes::Aes128>::new(key.into(), iv_block.into());
    cipher.try_apply_keystream(data.as_mut_slice())
}

/// Relies on `cipher::StreamCipherError`'s `Display` impl, which writes the
/// fixed diagnostic text attached to a decryption failure.
#[verifier::external_body]
pub(crate) fn stream_cipher_error_message(err: &aes::cipher::StreamCipherError) -> (r: String)
    ensures
        r@ == "Loop Error"@,
{
    err.to_string()
}

/// Pads `data` for the cipher: appends `n` bytes of value `n`, where `n`
/// brings the length to the next multiple of `block_size`; a block-aligned
/// input gains a full block of padding.
pub fn pad(data: &[u8], block_size: usize) -> (r: Vec<u8>)
    requires
        0 < block_size <= 255,
        data@.len() + block_size <= usize::MAX,
    ensures
        r@ == pad_spec(data@, block_size as nat),
        r@.len() == data@.len() + pad_count(data@.len(), block_size as nat),
{
    let num_pad: usize = block_size - data.len() % block_size;
    let mut res: Vec<u8> = slice_to_vec(data);
    let mut i: usize = 0;
    while i < num_pad
        invariant
            num_pad == pad_count(data@.len(), block_size as nat),
            1 <= num_pad <= 255,
            data@.len() + num_pad <= usize::MAX,
            i <= num_pad,
            res@ == data@ + Seq::new(i as nat, |j: int| num_pad as u8),
        decreases num_pad - i,
    {
        res.push(num_pad as u8);
        proof {
            assert(res@ =~= data@ + Seq::new((i + 1) as nat, |j: int| num_pad as u8));
        }
        i += 1;
    }
    proof {
        assert(res@ =~= pad_spec(data@, block_size as nat));
    }
    res
}

/// Reverses the site's encryption transform: expands the 16-bit `iv` into a
/// little-endian 128-bit counter block, pads `data` to the cipher's 16-byte
/// block size, and XORs the counter-mode keystream over the padded buffer.
/// The padding bytes are transformed along with the data and are not
/// stripped here.
pub fn decrypt(data: &[u8], key: [u8; 16], iv: u16) -> (r: Result<
    Vec<u8>,
    aes::cipher::StreamCipherError,
>)
    requires
        data@.len() + 16 <= usize::MAX,
    ensures
        r matches Ok(p) && p@ == decrypt_spec(data@, key@, iv),
{
    let mut iv_block: [u8; 16] = [0u8; 16];
    iv_block[0] = (iv & 0xff) as u8;
    iv_block[1] = (iv >> 8) as u8;
    proof {
        assert(iv_block@ =~= iv_block_of(iv));
    }
    let mut buf = pad(data, 16);
    match apply_keystream(&mut buf, &key, &iv_block) {
        Ok(()) => {
            proof {
                assert(buf@ =~= decrypt_spec(data@, key@, iv));
            }
            Ok(buf)
        },
        Err(e) => Err(e),
    }
}

/// Round-trip law: running the counter-mode transform and then running it
/// again with the same key and iv restores every byte of the first run's
/// input, padded — the keystream cancels under XOR, so a decryption of the
/// ciphertext yields the original plaintext followed by the deterministic
/// padding appended when it was encrypted (padding is not stripped by this
/// layer).
pub proof fn lemma_round_trip(data: Seq<u8>, key: Seq<u8>, iv: u16)
    ensures
        decrypt_spec(decrypt_spec(data, key, iv), key, iv).len() >= pad_spec(data, 16).len(),
        decrypt_spec(decrypt_spec(data, key, iv), key, iv).subrange(
            0,
            pad_spec(data, 16).len() as int,
        ) == pad_spec(data, 16),
{
    let p = pad_spec(data, 16);
    let c = decrypt_spec(data, key, iv);
    let twice = decrypt_spec(c, key, iv);
    assert forall|i: int| 0 <= i < p.len() implies twice[i] == p[i] by {
        let k = keystream_byte(key, iv_block_of(iv), i);
        let b = p[i];
        assert((b ^ k) ^ k == b) by (bit_vector);
        assert(pad_spec(c, 16)[i] == c[i]);
    }
    assert(twice.subrange(0, p.len() as int) =~= p);
}

} // verus!
