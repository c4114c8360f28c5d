use smarthome::device::push_decimal;
use smarthome::SmartSocket;

#[test]
fn basic_socket() {
    let mut s = SmartSocket::new();
    assert_eq!(s.to_string(), "[socket] state: off");

    s.turn_on();
    assert_eq!(s.on, true);
    assert_eq!(s.to_string(), "[socket] state: on. load: 0");
}

#[test]
fn new_and_default_are_off_and_unloaded() {
    let s = SmartSocket::new();
    assert!(!s.on);
    assert_eq!(s.load, 0);
    let d = SmartSocket::default();
    assert!(!d.on);
    assert_eq!(d.load, 0);
}

#[test]
fn turn_off_clears_any_load() {
    let mut s = SmartSocket::new();
    s.turn_on();
    s.set_load(1234);
    s.turn_off();
    assert!(!s.on);
    assert_eq!(s.load, 0);
}

#[test]
fn turn_on_keeps_load() {
    let mut s = SmartSocket::new();
    s.set_load(7);
    assert!(!s.on);
    s.turn_on();
    assert!(s.on);
    assert_eq!(s.load, 7);
}

#[test]
fn state_line_shows_load_only_when_on() {
    let mut s = SmartSocket::new();
    s.set_load(100);
    assert_eq!(s.state_line(), "state: off");
    s.turn_on();
    assert_eq!(s.state_line(), "state: on. load: 100");
    s.set_load(u32::MAX);
    assert_eq!(s.state_line(), "state: on. load: 4294967295");
}

#[test]
fn device_info_line() {
    let mut s = SmartSocket::new();
    assert_eq!(s.device_info(), "device_info: [SmartSocket] state: OFF. load: 0");
    s.turn_on();
    s.set_load(25);
    assert_eq!(s.device_info(), "device_info: [SmartSocket] state: ON. load: 25");
}

#[test]
fn decimal_digits() {
    let mut out = String::from("n=");
    push_decimal(&mut out, 0);
    assert_eq!(out, "n=0");
    let mut out = String::new();
    push_decimal(&mut out, 1000);
    assert_eq!(out, "1000");
    let mut out = String::new();
    push_decimal(&mut out, 4294967295);
    assert_eq!(out, "4294967295");
}
