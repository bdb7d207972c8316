use brandelier::config::I2c;
use brandelier::i2c::Bus;
use brandelier::i2c::Error;
use brandelier::i2c::Pace;
use brandelier::i2c::Read;
use bytes::Bytes;
use crc::Crc;
use crc::CRC_16_XMODEM;
use std::time::Duration;

fn crc_of(address: u16, payload: &[u8]) -> u16 {
    let mut input = address.to_be_bytes().to_vec();
    input.extend_from_slice(payload);
    Crc::<u16>::new(&CRC_16_XMODEM).checksum(&input)
}

#[test]
fn xmodem_check_value() {
    // The catalog's check value: CRC-16/XMODEM of "123456789" (address 0x3132
    // supplies the first two bytes).
    let frame = Bus::frame(0x3132, Bytes::copy_from_slice(b"3456789"));
    assert_eq!(&frame[..7], b"3456789");
    assert_eq!(&frame[7..], &[0x31, 0xC3]);
}

#[test]
fn frame_appends_the_checksum_big_endian() {
    let payload = [0x04, 0x80, 0x01, 0x24];
    let frame = Bus::frame(0x08, Bytes::copy_from_slice(&payload));
    let sum = crc_of(0x08, &payload);
    assert_eq!(frame.len(), 6);
    assert_eq!(&frame[..4], &payload);
    assert_eq!(&frame[4..], &sum.to_be_bytes());
    assert_ne!(&frame[..], &payload[..]);
}

#[test]
fn checksum_covers_the_address() {
    let payload = [1, 2, 3, 4];
    let a = Bus::frame(0x08, Bytes::copy_from_slice(&payload));
    let b = Bus::frame(0x09, Bytes::copy_from_slice(&payload));
    assert_ne!(&a[4..], &b[4..]);
}

#[test]
fn written_frame_passes_the_read_check() {
    let payload = [10, 20, 30, 40];
    let frame = Bus::frame(0x1A, Bytes::copy_from_slice(&payload));
    assert_eq!(Bus::check_read(0x1A, &frame), Ok(()));
}

#[test]
fn read_check_refuses_a_wrong_checksum() {
    let payload = [10, 20, 30, 40];
    let sum = crc_of(0x1A, &payload);
    let mut buffer = payload.to_vec();
    buffer.extend_from_slice(&(sum ^ 1).to_be_bytes());
    assert_eq!(Bus::check_read(0x1A, &buffer), Err(Error::Crc { expected: sum ^ 1, actual: sum }));
}

#[test]
fn read_check_refuses_a_frame_for_another_address() {
    let frame = Bus::frame(0x1A, Bytes::copy_from_slice(&[1, 1, 1, 1]));
    assert!(matches!(Bus::check_read(0x1B, &frame), Err(Error::Crc { .. })));
}

#[test]
fn read_check_wants_exactly_two_checksum_bytes() {
    assert_eq!(Bus::check_read(0x08, &[1, 2, 3, 4]), Err(Error::Eof));
    assert_eq!(Bus::check_read(0x08, &[1, 2, 3, 4, 5]), Err(Error::Eof));
    assert_eq!(Bus::check_read(0x08, &[1, 2, 3, 4, 5, 6, 7]), Err(Error::Eof));
}

#[test]
fn read_buffer_holds_payload_and_checksum() {
    assert_eq!(Read { address: 8, amount: 4 }.buffer_len(), 6);
    assert_eq!(Read { address: 8, amount: 0 }.buffer_len(), 2);
}

#[test]
fn bus_takes_its_settings_from_the_config() {
    let bus = Bus::new(&I2c::default());
    assert_eq!(bus.retries(), 3);
    assert_eq!(bus.retry_delay(), Duration::from_millis(20));
    assert_eq!(bus.rate_limit_period(), Duration::from_millis(40));
}

#[test]
fn first_transfer_proceeds_later_ones_wait_from_it() {
    let mut bus = Bus::new(&I2c::default());
    assert!(matches!(bus.rate_limit(0x08), Pace::Proceed));
    let first = match bus.rate_limit(0x08) {
        Pace::WaitFrom { since } => since,
        Pace::Proceed => panic!("second transfer should wait"),
    };
    match bus.rate_limit(0x08) {
        Pace::WaitFrom { since } => assert_eq!(since, first),
        Pace::Proceed => panic!("third transfer should wait"),
    }
    assert!(matches!(bus.rate_limit(0x09), Pace::Proceed));
}

#[test]
fn checksum_check_on_given_values() {
    assert_eq!(Bus::check_checksum(&[1, 2, 3, 4, 0x12, 0x34], 0x1234), Ok(()));
    assert_eq!(
        Bus::check_checksum(&[1, 2, 3, 4, 0x12, 0x34], 0x1235),
        Err(Error::Crc { expected: 0x1234, actual: 0x1235 })
    );
    assert_eq!(Bus::check_checksum(&[1, 2, 3, 4, 0x12], 0x1234), Err(Error::Eof));
}

#[test]
fn frame_with_a_given_checksum() {
    let framed = Bus::frame_with_checksum(Bytes::copy_from_slice(&[9, 8, 7]), 0xABCD);
    assert_eq!(&framed[..], &[9, 8, 7, 0xAB, 0xCD]);
}
