use sensirion_i2c::crc8::{self, CrcError};

#[test]
fn crc8_validate_empty_valid() {
    let buffer: [u8; 0] = [];
    crc8::validate(&buffer).unwrap()
}

#[test]
#[should_panic]
fn crc8_validate_one_invalid() {
    let buffer: [u8; 1] = [3];
    crc8::validate(&buffer).unwrap()
}

/// Test the crc function against the test value provided in the SHTC3 datasheet (section
/// 5.10).
#[test]
fn crc8_test_value() {
    assert_eq!(crc8::calculate(&[0x00]), 0xac);
    assert_eq!(crc8::calculate(&[0xbe, 0xef]), 0x92);
}

#[test]
fn crc8_validate_valid() {
    let data = [0xbeu8, 0xef, 0x92];
    assert!(crc8::validate(&data).is_ok());
}

#[test]
fn crc8_validate_invalid() {
    let buffer: [u8; 3] = [0xbe, 0xef, 0x91];
    assert_eq!(crc8::validate(&buffer), Err(CrcError::CrcError));
}

#[test]
fn crc8_validate() {
    // Valid CRC
    crc8::validate(&[0xbe, 0xef, 0x92]).unwrap();

    // Invalid CRC
    assert_eq!(crc8::validate(&[0xbe, 0xef, 0x91]), Err(CrcError::CrcError));
}

#[test]
fn crc8_empty_run_is_initial_value() {
    assert_eq!(crc8::calculate(&[]), 0xff);
}

#[test]
fn crc8_same_input_same_checksum() {
    for a in [0x00u8, 0x01, 0x7f, 0x80, 0xff] {
        for b in [0x00u8, 0x31, 0xbe, 0xef] {
            assert_eq!(crc8::calculate(&[a, b]), crc8::calculate(&[a, b]));
        }
    }
}

#[test]
fn crc8_known_words() {
    assert_eq!(crc8::calculate(&[0xab, 0xcd]), 0x6f);
    assert_eq!(crc8::calculate(&[0x00, 0x00]), 0x81);
    assert_eq!(crc8::calculate(&[0xca, 0xfe]), 0x58);
}

#[test]
fn crc8_validate_length_not_multiple_of_three() {
    assert_eq!(crc8::validate(&[3]), Err(CrcError::InvalidBufferSize));
    assert_eq!(crc8::validate(&[0xbe, 0xef]), Err(CrcError::InvalidBufferSize));
    assert_eq!(
        crc8::validate(&[0xbe, 0xef, 0x92, 0x00]),
        Err(CrcError::InvalidBufferSize)
    );
}

#[test]
fn crc8_validate_second_triplet_wrong() {
    assert_eq!(
        crc8::validate(&[0xbe, 0xef, 0x92, 0xbe, 0xef, 0x00]),
        Err(CrcError::CrcError)
    );
    assert!(crc8::validate(&[0xbe, 0xef, 0x92, 0xca, 0xfe, 0x58]).is_ok());
}
