use ble_readout::util::{BitReader, BitReaderError};

#[test]
fn test_bitreader() {
    let mut rdr = BitReader::new(&[0x1a, 0x2b, 0x3c, 0x4d, 0x5e, 0x6f, 0x78, 0x90]);

    assert_eq!(rdr.read_bit(), Ok(0));
    assert_eq!(rdr.read_bit(), Ok(1));
    assert_eq!(rdr.read_bit(), Ok(0));
    assert_eq!(rdr.read_bit(), Ok(1));
    assert_eq!(rdr.read_u16(6), Ok(0x31));
    assert_eq!(rdr.read_i16(6), Ok(0x0A));
    assert_eq!(rdr.read_i16(4), Ok(-0x04));
    assert_eq!(rdr.read_u16(11), Ok(0x4D3));
    assert_eq!(rdr.read_bit(), Ok(0));
    assert_eq!(rdr.read_u32(32), Ok(0x90786F5E));

    assert_eq!(rdr.read_bit(), Err(BitReaderError::NotEnoughData));
    assert_eq!(rdr.read_i16(17), Err(BitReaderError::TooManyBitsForType));
    assert_eq!(rdr.read_i32(33), Err(BitReaderError::TooManyBitsForType));
    assert_eq!(rdr.read_u32(33), Err(BitReaderError::TooManyBitsForType));
}

#[test]
fn test_read_zero_bits() {
    let mut rdr = BitReader::new(&[0xFF]);

    assert_eq!(rdr.read_u8(0), Ok(0));
    assert_eq!(rdr.read_u16(0), Ok(0));
    assert_eq!(rdr.read_u32(0), Ok(0));
    assert_eq!(rdr.read_i16(0), Ok(0));
    assert_eq!(rdr.read_i32(0), Ok(0));

    // The cursor did not move: the next bit is still the first bit of 0xFF.
    assert_eq!(rdr.read_bit(), Ok(1));
}

#[test]
fn test_too_many_bits_regardless_of_buffer() {
    // Even over an empty buffer, asking for more bits than the target type
    // holds fails with the type-width error, not the underflow error.
    let mut rdr = BitReader::new(&[]);

    assert_eq!(rdr.read_u8(9), Err(BitReaderError::TooManyBitsForType));
    assert_eq!(rdr.read_u16(17), Err(BitReaderError::TooManyBitsForType));
    assert_eq!(rdr.read_u32(33), Err(BitReaderError::TooManyBitsForType));
    assert_eq!(rdr.read_i16(17), Err(BitReaderError::TooManyBitsForType));
    assert_eq!(rdr.read_i32(33), Err(BitReaderError::TooManyBitsForType));

    // A read within the type width still underflows the empty buffer.
    assert_eq!(rdr.read_u8(1), Err(BitReaderError::NotEnoughData));
}

#[test]
fn test_sign_extension() {
    // An 8-bit field whose top bit is set decodes to value - 2^8.
    let mut rdr = BitReader::new(&[0xFF]);
    assert_eq!(rdr.read_i16(8), Ok(-1));

    // An 8-bit field whose top bit is clear decodes unchanged.
    let mut rdr = BitReader::new(&[0x7F]);
    assert_eq!(rdr.read_i32(8), Ok(127));

    // 16-bit fields, both signs (bytes are little-endian bit packed).
    let mut rdr = BitReader::new(&[0xFF, 0x7F]);
    assert_eq!(rdr.read_i16(16), Ok(0x7FFF));

    let mut rdr = BitReader::new(&[0x00, 0x80]);
    assert_eq!(rdr.read_i16(16), Ok(-0x8000));

    // A 4-bit field: 0b1100 decodes to 12 - 16 = -4.
    let mut rdr = BitReader::new(&[0x0C]);
    assert_eq!(rdr.read_i32(4), Ok(-4));
}
