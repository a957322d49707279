use dht11::frame::{check_frame, checksum, split_frame};
use dht11::{Error, Measure};

#[test]
fn checksum_sums_four_data_bytes() {
    assert_eq!(checksum(&[0x32, 0x00, 0x1B, 0x00, 0x00]), 0x4D);
    assert_eq!(checksum(&[0x01, 0x02, 0x03, 0x04, 0xFF]), 10);
}

#[test]
fn checksum_wraps_modulo_256() {
    assert_eq!(checksum(&[0xFF, 0xFF, 0xFF, 0xFF, 0x00]), 0xFC);
    assert_eq!(checksum(&[0x80, 0x80, 0x00, 0x00, 0x00]), 0x00);
}

#[test]
fn checksum_counts_fraction_bytes() {
    assert_eq!(checksum(&[0x10, 0x05, 0x10, 0x03, 0x00]), 0x28);
}

#[test]
fn check_frame_accepts_matching_checksum() {
    let m = check_frame([0x32, 0x00, 0x1B, 0x00, 0x4D]).unwrap();
    assert_eq!(m, Measure::new(27, 50));
    assert_eq!(m.humidity(), 50);
    assert_eq!(m.temperature(), 27);
}

#[test]
fn check_frame_rejects_mismatched_checksum() {
    assert!(matches!(check_frame([0x32, 0x00, 0x1B, 0x00, 0x4E]), Err(Error::CheckSum)));
}

#[test]
fn check_frame_rejects_checksum_over_two_fields_only() {
    // the fraction bytes count towards the checksum
    assert!(matches!(check_frame([0x32, 0x01, 0x1B, 0x00, 0x4D]), Err(Error::CheckSum)));
    assert!(check_frame([0x32, 0x01, 0x1B, 0x00, 0x4E]).is_ok());
}

#[test]
fn check_frame_all_zero_is_valid() {
    assert_eq!(check_frame([0, 0, 0, 0, 0]).unwrap(), Measure::new(0, 0));
}

#[test]
fn split_frame_is_big_endian() {
    assert_eq!(split_frame(0x32_00_1B_00_4D), [0x32, 0x00, 0x1B, 0x00, 0x4D]);
    assert_eq!(split_frame(0xFF_FF_FF_FF_FF), [0xFF; 5]);
    assert_eq!(split_frame(0), [0; 5]);
}

#[test]
fn gpio_error_converts_to_driver_fault() {
    let e = Error::from(rppal::gpio::Error::PinNotAvailable(23));
    assert!(matches!(e, Error::Gpio(rppal::gpio::Error::PinNotAvailable(23))));
}
