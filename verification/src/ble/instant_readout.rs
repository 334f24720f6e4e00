use crate::crypto;
use crate::crypto::decrypt_spec;
use vstd::prelude::*;
use vstd::slice::slice_subrange;

verus! {

/// Failures of framing or decrypting a readout container.
#[derive(Debug)]
pub enum InstantReadoutContainerError {
    /// The advertisement payload is too short to hold the header and the
    /// key-check byte.
    InvalidData,
    /// The supplied key is not 16 bytes long, or its first byte does not
    /// match the container's key-check byte.
    InvalidKey,
    /// The cipher primitive rejected its input; carries its diagnostic.
    DecryptFailed(String),
}

/// A framed instant-readout advertisement payload: header fields plus the
/// encrypted tail, whose first byte is the key-check byte. Immutable once
/// constructed; decryption produces a fresh buffer and never mutates the
/// container.
#[derive(Eq, PartialEq, Debug)]
pub struct InstantReadoutContainer {
    pub prefix: u16,
    pub model_id: u16,
    pub readout_type: u8,
    pub iv: u16,
    pub encrypted_data: Vec<u8>,
}

/// A 16-bit value from two bytes in little-endian order.
pub open spec fn u16_le(lo: u8, hi: u8) -> u16 {
    (lo + hi * 256) as u16
}

impl InstantReadoutContainer {
    /// Frames a raw advertisement payload: 2-byte `prefix`, 2-byte
    /// `model_id`, 1-byte `readout_type` and 2-byte `iv` (multi-byte fields
    /// little-endian), then the rest as the encrypted tail. Payloads
    /// shorter than 8 bytes (the 7-byte header plus at least the key-check
    /// byte) are rejected.
    pub fn from_data(data: Vec<u8>) -> (r: Result<Self, InstantReadoutContainerError>)
        ensures
            data@.len() < 8 ==> r == Err::<InstantReadoutContainer, InstantReadoutContainerError>(
                InstantReadoutContainerError::InvalidData,
            ),
            data@.len() >= 8 ==> (r matches Ok(c) && c.prefix == u16_le(data@[0], data@[1])
                && c.model_id == u16_le(data@[2], data@[3]) && c.readout_type == data@[4] && c.iv
                == u16_le(data@[5], data@[6]) && c.encrypted_data@ == data@.subrange(
                7,
                data@.len() as int,
            )),
    {
        if data.len() < 8 {
            return Err(InstantReadoutContainerError::InvalidData);
        }

        let prefix = data[0] as u16 + (data[1] as u16) * 256;
        let model_id = data[2] as u16 + (data[3] as u16) * 256;
        let readout_type = data[4];
        let iv = data[5] as u16 + (data[6] as u16) * 256;
        let mut rest = data;
        let encrypted_data = rest.split_off(7);

        Ok(
            InstantReadoutContainer {
                prefix,
                model_id,
                readout_type,
                iv,
                encrypted_data,
            },
        )
    }

    /// Splits the encrypted tail into the key-check byte and the
    /// ciphertext, validates the supplied key against the check byte, and
    /// decrypts the ciphertext with this container's `iv`.
    ///
    /// The encrypted region must be non-empty: calling this on an empty one
    /// is a programming error of the caller, not a recoverable result.
    pub fn decrypt_data(&self, key: &[u8]) -> (r: Result<Vec<u8>, InstantReadoutContainerError>)
        requires
            self.encrypted_data@.len() >= 1,
            self.encrypted_data@.len() + 15 <= usize::MAX,
        ensures
            (key@.len() != 16 || key@[0] != self.encrypted_data@[0]) <==> r == Err::<
                Vec<u8>,
                InstantReadoutContainerError,
            >(InstantReadoutContainerError::InvalidKey),
            key@.len() == 16 && key@[0] == self.encrypted_data@[0] ==> (r matches Ok(p) && p@
                == decrypt_spec(
                self.encrypted_data@.subrange(1, self.encrypted_data@.len() as int),
                key@,
                self.iv,
            )),
    {
        let key_check = self.encrypted_data[0];
        let data = slice_subrange(self.encrypted_data.as_slice(), 1, self.encrypted_data.len());

        if key.len() != 16 {
            return Err(InstantReadoutContainerError::InvalidKey);
        }
        if key[0] != key_check {
            return Err(InstantReadoutContainerError::InvalidKey);
        }

        let mut key_arr: [u8; 16] = [0u8; 16];
        let mut i: usize = 0;
        while i < 16
            invariant
                key@.len() == 16,
                i <= 16,
                forall|j: int| 0 <= j < i ==> key_arr@[j] == key@[j],
            decreases 16 - i,
        {
            key_arr[i] = key[i];
            i += 1;
        }
        proof {
            assert(key_arr@ =~= key@);
        }

        match crypto::decrypt(data, key_arr, self.iv) {
            Ok(p) => Ok(p),
            Err(e) => Err(
                InstantReadoutContainerError::DecryptFailed(
                    crypto::stream_cipher_error_message(&e),
                ),
            ),
        }
    }
}

} // verus!
