use kfs::ps2::controller::{
    checksum_valid, controller_present, is_dual_channel, port_test_result, reset_result, self_test_result,
    updated_config, Command, ControllerError, Status,
};
use kfs::ps2::{Buffer, Event, Key, KeyEvent};

fn press(key: Key) -> KeyEvent {
    KeyEvent { key, event: Event::Pressed }
}

#[test]
fn buffer_is_first_in_first_out() {
    let mut b = Buffer::new();
    assert!(b.is_empty());
    assert_eq!(b.pop(), None);
    b.push(press(Key::A));
    b.push(press(Key::B));
    b.push(press(Key::C));
    assert_eq!(b.pop(), Some(press(Key::A)));
    assert_eq!(b.pop(), Some(press(Key::B)));
    assert_eq!(b.pop(), Some(press(Key::C)));
    assert_eq!(b.pop(), None);
}

#[test]
fn full_buffer_drops_its_oldest_event() {
    let mut b = Buffer::new();
    b.push(press(Key::A));
    for _ in 0..254 {
        b.push(press(Key::B));
    }
    b.push(press(Key::C));
    let mut count = 0;
    let mut last = None;
    let first = b.pop();
    assert_eq!(first, Some(press(Key::B)));
    count += 1;
    while let Some(e) = b.pop() {
        last = Some(e);
        count += 1;
    }
    assert_eq!(count, 255);
    assert_eq!(last, Some(press(Key::C)));
}

#[test]
fn checksum_is_sum_modulo_256() {
    assert!(checksum_valid(&[]));
    assert!(checksum_valid(&[1, 255]));
    assert!(checksum_valid(&[0x80, 0x40, 0x40]));
    assert!(!checksum_valid(&[1, 2]));
}

#[test]
fn port_test_answers() {
    assert_eq!(port_test_result(0), Ok(()));
    assert_eq!(port_test_result(1), Err(ControllerError::ClockLineStuckLow));
    assert_eq!(port_test_result(2), Err(ControllerError::ClockLineStuckHigh));
    assert_eq!(port_test_result(3), Err(ControllerError::DataLineStuckLow));
    assert_eq!(port_test_result(4), Err(ControllerError::DataLineStuckHigh));
    assert_eq!(port_test_result(5), Ok(()));
}

#[test]
fn reset_needs_both_answers_in_any_order() {
    assert_eq!(reset_result(0xFA, 0xAA), Ok(()));
    assert_eq!(reset_result(0xAA, 0xFA), Ok(()));
    assert_eq!(reset_result(0xFA, 0xFA), Err(ControllerError::SelfTestFailed));
    assert_eq!(reset_result(0x00, 0xAA), Err(ControllerError::SelfTestFailed));
}

#[test]
fn self_test_and_presence() {
    assert_eq!(self_test_result(0x55), Ok(()));
    assert_eq!(self_test_result(0xFC), Err(ControllerError::SelfTestFailed));
    assert_eq!(controller_present(1, 0), Ok(()));
    assert_eq!(controller_present(2, 0), Err(ControllerError::NoController));
    assert_eq!(controller_present(2, 2), Ok(()));
}

#[test]
fn configuration_bits() {
    assert!(is_dual_channel(0b0010_0000));
    assert!(!is_dual_channel(0b1101_1111));
    assert_eq!(updated_config(0xFF, 0b1010_1110), 0b1010_1110);
    assert_eq!(Command::SelfTest.code(), 0xAA);
    assert_eq!(Command::DisableFirstPort.code(), 0xAD);
    assert_eq!(Status::InputFull.bit(), 2);
    assert_eq!(Status::OutputFull.bit(), 1);
}
