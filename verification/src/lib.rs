//! Decoder for encrypted manufacturer telemetry carried in Bluetooth Low
//! Energy advertisement payloads: payload framing, counter-mode stream
//! decryption, and bit-level extraction of typed readout fields.

pub mod ble;
pub mod crypto;
pub mod devices;
pub mod util;
