use vstd::prelude::*;

pub mod instant_readout;

verus! {

/// Manufacturer identifier under which these advertisement payloads are
/// broadcast.
pub const VICTRON_MANUFACTURER_ID: u16 = 0x02E1;

/// Failures of decoding a typed record out of advertisement bytes.
#[derive(Debug)]
pub enum AdvertisementDataError {
    /// The buffer holds fewer bits than the record's schema reads.
    NotEnoughData,
}

/// A typed record that a schema decoder can materialize from (decrypted)
/// advertisement bytes. An implementation fixes which buffers are long
/// enough for its schema and how the decoded fields relate to the bytes;
/// its decoder reads the declared bit fields in order through a fresh
/// `BitReader`.
pub trait FromAdvertisementData: Sized {
    /// Whether `data` holds enough bits for this record's schema.
    spec fn decodable(data: Seq<u8>) -> bool;

    /// How a decoded record relates to the bytes it was read from.
    spec fn decoded(data: Seq<u8>, r: Self) -> bool;

    /// Decodes a record from `data`; fails exactly on buffers too short
    /// for the schema.
    fn from_advertisement_data(data: &[u8]) -> (r: Result<Self, AdvertisementDataError>)
        ensures
            Self::decodable(data@) ==> (r matches Ok(v) && Self::decoded(data@, v)),
            !Self::decodable(data@) ==> r == Err::<Self, AdvertisementDataError>(
                AdvertisementDataError::NotEnoughData,
            ),
    ;
}

} // verus!
