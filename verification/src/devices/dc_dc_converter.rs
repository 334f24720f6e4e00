use crate::ble::{AdvertisementDataError, FromAdvertisementData};
use crate::util::{lemma_read_bits_prefix, read_bits, sign_extend, BitReader};
use vstd::prelude::*;
use vstd::slice::slice_subrange;

verus! {

/// Telemetry record of a power converter: fixed-width fields read in
/// declared order from a decrypted buffer. One such record type exists per
/// readout type; this one stands for the family.
#[derive(PartialEq, Debug)]
pub struct DcDcConverterData {
    pub device_state: u8,
    pub charger_error: u8,
    pub input_voltage: u16,
    pub output_voltage: i16,
    pub off_reason: u32,
}

impl FromAdvertisementData for DcDcConverterData {
    /// The schema reads 80 bits: 8 + 8 + 16 + 16 + 32.
    open spec fn decodable(data: Seq<u8>) -> bool {
        data.len() >= 10
    }

    /// The fields in declared order, each at its fixed bit offset: 8-bit
    /// state, 8-bit error code, 16-bit unsigned input measurement, 16-bit
    /// signed output measurement, 32-bit unsigned reason code.
    open spec fn decoded(data: Seq<u8>, r: Self) -> bool {
        &&& r.device_state == read_bits(data, 0, 8) as u8
        &&& r.charger_error == read_bits(data, 8, 8) as u8
        &&& r.input_voltage == read_bits(data, 16, 16) as u16
        &&& r.output_voltage == sign_extend(read_bits(data, 32, 16), 16) as i16
        &&& r.off_reason == read_bits(data, 48, 32) as u32
    }

    fn from_advertisement_data(data: &[u8]) -> (r: Result<Self, AdvertisementDataError>) {
        if data.len() < 10 {
            return Err(AdvertisementDataError::NotEnoughData);
        }
        let head = slice_subrange(data, 0, 10);
        let mut rdr = BitReader::new(head);

        let device_state = match rdr.read_u8(8) {
            Ok(v) => v,
            Err(_) => {
                return Err(AdvertisementDataError::NotEnoughData);
            },
        };
        let charger_error = match rdr.read_u8(8) {
            Ok(v) => v,
            Err(_) => {
                return Err(AdvertisementDataError::NotEnoughData);
            },
        };
        let input_voltage = match rdr.read_u16(16) {
            Ok(v) => v,
            Err(_) => {
                return Err(AdvertisementDataError::NotEnoughData);
            },
        };
        let output_voltage = match rdr.read_i16(16) {
            Ok(v) => v,
            Err(_) => {
                return Err(AdvertisementDataError::NotEnoughData);
            },
        };
        let off_reason = match rdr.read_u32(32) {
            Ok(v) => v,
            Err(_) => {
                return Err(AdvertisementDataError::NotEnoughData);
            },
        };

        proof {
            lemma_read_bits_prefix(head@, data@, 0, 8);
            lemma_read_bits_prefix(head@, data@, 8, 8);
            lemma_read_bits_prefix(head@, data@, 16, 16);
            lemma_read_bits_prefix(head@, data@, 32, 16);
            lemma_read_bits_prefix(head@, data@, 48, 32);
        }

        Ok(
            DcDcConverterData {
                device_state,
                charger_error,
                input_voltage,
                output_voltage,
                off_reason,
            },
        )
    }
}

} // verus!
