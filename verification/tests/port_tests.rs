use piboot::ports::{find_usb_port, names_usb_tty, usb_port_candidates};
use piboot::serial::{echo_decision, reply_decision, EchoDecision, ReadOutcome, ReplyDecision};

#[test]
fn usb_tty_names() {
    assert!(names_usb_tty("/dev/tty.usbserial-0001"));
    assert!(names_usb_tty("tty.usb"));
    assert!(!names_usb_tty("/dev/ttyUSB0"));
    assert!(!names_usb_tty("/dev/cu.usbserial"));
    assert!(!names_usb_tty("tty.us"));
    assert!(!names_usb_tty(""));
}

#[test]
fn first_usb_port_is_chosen() {
    let names: Vec<String> = vec![
        "/dev/tty.Bluetooth".to_string(),
        "/dev/tty.usbserial-1".to_string(),
        "/dev/cu.usbserial-1".to_string(),
        "/dev/tty.usbmodem2".to_string(),
    ];
    assert_eq!(find_usb_port(&names), Some(1));
    assert_eq!(usb_port_candidates(&names), vec![1, 3]);
    let none: Vec<String> = vec!["/dev/ttyS0".to_string()];
    assert_eq!(find_usb_port(&none), None);
    assert!(usb_port_candidates(&none).is_empty());
}

#[test]
fn read_decisions() {
    assert_eq!(reply_decision(ReadOutcome::Bytes(3)), ReplyDecision::Return(3));
    assert_eq!(reply_decision(ReadOutcome::Bytes(0)), ReplyDecision::Return(0));
    assert_eq!(reply_decision(ReadOutcome::TimedOut), ReplyDecision::Retry);
    assert_eq!(reply_decision(ReadOutcome::Failed), ReplyDecision::Fail);
    assert_eq!(echo_decision(ReadOutcome::Bytes(5)), EchoDecision::Forward(5));
    assert_eq!(echo_decision(ReadOutcome::Bytes(0)), EchoDecision::Wait);
    assert_eq!(echo_decision(ReadOutcome::TimedOut), EchoDecision::Wait);
    assert_eq!(echo_decision(ReadOutcome::Failed), EchoDecision::Stop);
}
