use piboot::degree::DegreeState;
use piboot::drive::{drive_step, DriveState};
use piboot::keys::{
    arrow_to_command, DriveOutput, Key, BACKWARD_COMMAND, FORWARD_COMMAND, STOP_COMMAND,
    TURN_LEFT_COMMAND, TURN_RIGHT_COMMAND,
};
use piboot::pulse::{pulse_step, PulseState};

#[test]
fn arrows_map_to_commands() {
    assert_eq!(arrow_to_command(&Key::Up), Some((FORWARD_COMMAND, "FORWARD")));
    assert_eq!(arrow_to_command(&Key::Down), Some((BACKWARD_COMMAND, "BACKWARD")));
    assert_eq!(arrow_to_command(&Key::Left), Some((TURN_LEFT_COMMAND, "TURN LEFT")));
    assert_eq!(arrow_to_command(&Key::Right), Some((TURN_RIGHT_COMMAND, "TURN RIGHT")));
    assert_eq!(arrow_to_command(&Key::G), None);
}

#[test]
fn drive_arrow_press_hold_release() {
    let mut s = DriveState::new();
    let p = drive_step(&mut s, &vec![Key::Other, Key::Left, Key::Up]);
    assert!(!p.quit);
    assert_eq!(
        p.outputs,
        vec![DriveOutput::Announce("TURN LEFT"), DriveOutput::Send(TURN_LEFT_COMMAND)]
    );
    let p = drive_step(&mut s, &vec![Key::Left, Key::Up]);
    assert!(p.outputs.is_empty());
    let p = drive_step(&mut s, &vec![Key::Up]);
    assert_eq!(p.outputs, vec![DriveOutput::Announce("FORWARD"), DriveOutput::Send(FORWARD_COMMAND)]);
    let p = drive_step(&mut s, &vec![]);
    assert_eq!(p.outputs, vec![DriveOutput::Announce("STOP"), DriveOutput::Send(STOP_COMMAND)]);
    assert_eq!(s.active, None);
}

#[test]
fn drive_pulse_once_per_press() {
    let mut s = DriveState::new();
    let p = drive_step(&mut s, &vec![Key::G]);
    assert_eq!(
        p.outputs,
        vec![
            DriveOutput::Announce("PULSE TURN RIGHT"),
            DriveOutput::Send(TURN_RIGHT_COMMAND),
            DriveOutput::Wait(160),
            DriveOutput::Send(STOP_COMMAND),
            DriveOutput::Announce("STOP"),
        ]
    );
    assert!(drive_step(&mut s, &vec![Key::G]).outputs.is_empty());
    assert!(drive_step(&mut s, &vec![]).outputs.is_empty());
    let p = drive_step(&mut s, &vec![Key::H]);
    assert_eq!(p.outputs[0], DriveOutput::Announce("PULSE FORWARD"));
    assert_eq!(p.outputs[1], DriveOutput::Send(FORWARD_COMMAND));
}

#[test]
fn drive_quit_keys() {
    let mut s = DriveState::new();
    let p = drive_step(&mut s, &vec![Key::Up, Key::Q]);
    assert!(p.quit);
    assert!(p.outputs.is_empty());
    assert_eq!(s, DriveState::new());
    assert!(drive_step(&mut s, &vec![Key::Escape]).quit);
}

#[test]
fn degree_once_per_press() {
    let mut s = DegreeState::new();
    let p = s.step(&vec![Key::G, Key::Up, Key::M]);
    assert_eq!(
        p.outputs,
        vec![
            DriveOutput::SendAmount(TURN_LEFT_COMMAND, 30),
            DriveOutput::SendAmount(FORWARD_COMMAND, 6),
            DriveOutput::SendAmount(FORWARD_COMMAND, 14),
        ]
    );
    assert!(s.step(&vec![Key::G, Key::Up, Key::M]).outputs.is_empty());
    let p = s.step(&vec![Key::Up, Key::Right, Key::X]);
    assert_eq!(
        p.outputs,
        vec![DriveOutput::SendAmount(TURN_RIGHT_COMMAND, 15), DriveOutput::SendAmount(FORWARD_COMMAND, 1)]
    );
    assert!(s.step(&vec![Key::Q]).quit);
}

#[test]
fn degree_every_binding() {
    let table = [
        (Key::G, TURN_LEFT_COMMAND, 30),
        (Key::H, TURN_RIGHT_COMMAND, 30),
        (Key::Left, TURN_LEFT_COMMAND, 15),
        (Key::Right, TURN_RIGHT_COMMAND, 15),
        (Key::Up, FORWARD_COMMAND, 6),
        (Key::Down, BACKWARD_COMMAND, 6),
        (Key::X, FORWARD_COMMAND, 1),
        (Key::C, FORWARD_COMMAND, 2),
        (Key::V, FORWARD_COMMAND, 4),
        (Key::B, FORWARD_COMMAND, 6),
        (Key::N, FORWARD_COMMAND, 10),
        (Key::M, FORWARD_COMMAND, 14),
    ];
    for (k, c, a) in table {
        let mut s = DegreeState::new();
        assert_eq!(s.step(&vec![k]).outputs, vec![DriveOutput::SendAmount(c, a)]);
    }
}

#[test]
fn pulse_burst_and_steering() {
    let mut s = PulseState::new();
    let p = pulse_step(&mut s, &vec![Key::G, Key::Left, Key::Up]);
    assert_eq!(p.outputs.len(), 41);
    for i in 0..20 {
        assert_eq!(p.outputs[2 * i], DriveOutput::Send(TURN_LEFT_COMMAND));
        assert_eq!(p.outputs[2 * i + 1], DriveOutput::Wait(10));
    }
    assert_eq!(p.outputs[40], DriveOutput::Send(FORWARD_COMMAND));
    let p = pulse_step(&mut s, &vec![Key::G, Key::Left, Key::Up]);
    assert_eq!(p.outputs, vec![DriveOutput::Send(FORWARD_COMMAND)]);
    let p = pulse_step(&mut s, &vec![Key::H, Key::Right, Key::Left]);
    assert_eq!(p.outputs.len(), 41);
    assert_eq!(p.outputs[0], DriveOutput::Send(TURN_RIGHT_COMMAND));
    assert_eq!(p.outputs[40], DriveOutput::Send(TURN_LEFT_COMMAND));
    assert!(pulse_step(&mut s, &vec![Key::Down]).outputs == vec![DriveOutput::Send(BACKWARD_COMMAND)]);
}
