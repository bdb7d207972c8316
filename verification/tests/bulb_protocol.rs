use brandelier::bulb::Bulb;
use brandelier::bulb::Command;
use brandelier::bulb::Error;
use brandelier::bulb::Response;
use brandelier::bulb::SendFailure;

#[test]
fn opcodes_follow_the_firmware_table() {
    assert_eq!(Command::SetExtension { extension: 0 }.opcode(), 0x00);
    assert_eq!(Command::SetBrightness { extension: 0, brightness: 0 }.opcode(), 0x01);
    assert_eq!(Command::SavePosition { extension: 0 }.opcode(), 0x02);
    assert_eq!(Command::SetKpPos { extension: 0, kp_pos: 0 }.opcode(), 0x07);
    assert_eq!(Command::SetMaxSpeed { extension: 0, speed: 0 }.opcode(), 0x08);
    assert_eq!(Command::Zero { extension: 0 }.opcode(), 0x09);
    assert_eq!(Command::SetMaxExtension { extension: 0, max: 0 }.opcode(), 0x0A);
}

#[test]
fn arguments_only_for_kinds_that_carry_one() {
    assert_eq!(Command::SetExtension { extension: 5 }.argument(), None);
    assert_eq!(Command::SavePosition { extension: 5 }.argument(), None);
    assert_eq!(Command::Zero { extension: 5 }.argument(), None);
    assert_eq!(Command::SetBrightness { extension: 5, brightness: 200 }.argument(), Some(200));
    assert_eq!(Command::SetKpPos { extension: 5, kp_pos: 12 }.argument(), Some(12));
    assert_eq!(Command::SetMaxSpeed { extension: 5, speed: 30 }.argument(), Some(30));
}

#[test]
fn max_extension_argument_is_capped() {
    assert_eq!(Command::SetMaxExtension { extension: 0, max: 65 }.argument(), Some(65));
    assert_eq!(Command::SetMaxExtension { extension: 0, max: 115 }.argument(), Some(115));
    assert_eq!(Command::SetMaxExtension { extension: 0, max: 200 }.argument(), Some(115));
}

#[test]
fn extension_is_reported_as_given() {
    assert_eq!(Command::SetBrightness { extension: 0x1234, brightness: 1 }.extension(), 0x1234);
    assert_eq!(Command::Zero { extension: 7 }.extension(), 7);
}

#[test]
fn encode_is_extension_big_endian_then_opcode_then_argument() {
    let c = Command::SetBrightness { extension: 4 * 256 + 128, brightness: 36 };
    assert_eq!(c.encode(), [0x04, 0x80, 0x01, 36]);
    assert_eq!(Command::Zero { extension: 0 }.encode(), [0, 0, 0x09, 0]);
    assert_eq!(Command::SetMaxExtension { extension: 0xFFFF, max: 250 }.encode(), [0xFF, 0xFF, 0x0A, 115]);
    assert_eq!(Command::SetMaxSpeed { extension: 256, speed: 10 }.encode(), [0x01, 0x00, 0x08, 10]);
}

#[test]
fn parse_decodes_a_four_byte_answer() {
    let r = Response::parse(&[12, 200, 64, 0b0101]).unwrap();
    assert_eq!(r.extension, 12);
    assert_eq!(r.speed, 64);
    assert!(r.light);
    assert!(!r.zeroing);
    assert!(r.disable_all);
    assert!(!r.eeprom_error);
    let r = Response::parse(&[0, 0, 0, 0b1010]).unwrap();
    assert!(!r.light);
    assert!(r.zeroing);
    assert!(!r.disable_all);
    assert!(r.eeprom_error);
}

#[test]
fn parse_ignores_the_upper_flag_bits() {
    let r = Response::parse(&[1, 2, 3, 0xF0]).unwrap();
    assert!(!r.light && !r.zeroing && !r.disable_all && !r.eeprom_error);
}

#[test]
fn parse_refuses_other_lengths() {
    assert_eq!(Response::parse(&[1, 2, 3]), Err(Error::InvalidResponseLength { actual: 3 }));
    assert_eq!(Response::parse(&[]), Err(Error::InvalidResponseLength { actual: 0 }));
    assert_eq!(Response::parse(&[1, 2, 3, 4, 5]), Err(Error::InvalidResponseLength { actual: 5 }));
}

#[test]
fn new_bulb_knows_nothing_yet() {
    let b = Bulb::new(0x0C);
    assert_eq!(b.address(), 0x0C);
    assert_eq!(b.real_extension(), 0);
    assert_eq!(b.real_speed(), 0);
    assert!(!b.zeroing() && !b.light_on() && !b.disable_all() && !b.eeprom_error());
    assert_eq!(b.last_requested_extension(), 0);
}

#[test]
fn write_records_the_extension_and_carries_the_encoding() {
    let mut b = Bulb::new(0x10);
    let c = Command::SetBrightness { extension: 3 * 256, brightness: 255 };
    let w = b.write(c);
    assert_eq!(w.address, 0x10);
    assert_eq!(&w.data[..], &[3, 0, 1, 255]);
    assert_eq!(b.last_requested_extension(), 3 * 256);
}

#[test]
fn zero_writes_the_zero_command() {
    let mut b = Bulb::new(0x11);
    b.write(Command::SetExtension { extension: 900 });
    let w = b.zero();
    assert_eq!(w.address, 0x11);
    assert_eq!(&w.data[..], &[0, 0, 0x09, 0]);
    assert_eq!(b.last_requested_extension(), 0);
}

#[test]
fn read_asks_for_four_bytes() {
    let b = Bulb::new(0x12);
    let r = b.read();
    assert_eq!(r.address, 0x12);
    assert_eq!(r.amount, 4);
}

#[test]
fn refresh_takes_in_a_response() {
    let mut b = Bulb::new(0x12);
    let response = Response::parse(&[7, 0, 32, 0b0011]).unwrap();
    assert_eq!(b.refresh(Ok(response)), Ok(()));
    assert_eq!(b.real_extension(), 7);
    assert_eq!(b.real_speed(), 32);
    assert!(b.light_on());
    assert!(b.zeroing());
    assert!(!b.disable_all());
}

#[test]
fn refresh_after_a_failed_read_keeps_the_bulb() {
    let mut b = Bulb::new(0x12);
    b.refresh(Ok(Response::parse(&[9, 0, 1, 0b0010]).unwrap())).unwrap();
    assert_eq!(b.refresh(Err(Error::SendRead(SendFailure::Timeout))), Ok(()));
    assert_eq!(b.real_extension(), 9);
    assert!(b.zeroing());
    assert_eq!(b.refresh(Err(Error::InvalidResponseLength { actual: 2 })), Ok(()));
    assert_eq!(b.real_speed(), 1);
}
