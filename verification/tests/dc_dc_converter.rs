use ble_readout::ble::{AdvertisementDataError, FromAdvertisementData};
use ble_readout::devices::dc_dc_converter::DcDcConverterData;

#[test]
fn test_dc_dc_converter_data_from_advertisement_data() {
    let data = DcDcConverterData::from_advertisement_data(&[
        0x01, 0x02, 0x23, 0x05, 0xff, 0x7f, 0x80, 0x00, 0x00, 0x00, 0xcb, 0xdd, 0x49, 0x4c, 0xc5,
        0xd1,
    ])
    .unwrap();

    assert_eq!(
        data,
        DcDcConverterData {
            device_state: 1,
            charger_error: 2,
            input_voltage: 1315,
            output_voltage: 0x7FFF,
            off_reason: 0x00000080
        }
    );
}

#[test]
fn test_dc_dc_converter_data_short_buffer() {
    // The schema reads 80 bits; nine bytes are not enough.
    let r = DcDcConverterData::from_advertisement_data(&[0x01, 0x02, 0x23, 0x05, 0xff, 0x7f,
        0x80, 0x00, 0x00]);
    assert!(matches!(r, Err(AdvertisementDataError::NotEnoughData)));

    // Ten bytes are exactly enough.
    let r = DcDcConverterData::from_advertisement_data(&[0x01, 0x02, 0x23, 0x05, 0xff, 0x7f,
        0x80, 0x00, 0x00, 0x00]);
    assert!(r.is_ok());
}
