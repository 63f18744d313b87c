use piboot::boot::{full_boot, test_boot, TEST_IMAGE_LEN};
use piboot::crc::crc;
use piboot::protocol::{
    BootError, BOOT_ACK, BOOT_CODE_ADDRESS, BOOT_ERROR_BIG, BOOT_ERROR_CRC, BOOT_SUCCESS,
    GET_CODE, GET_PROG_INFO,
};
use piboot::session::{BootAction, BootSession, Stage};

/// Drives a session with the given replies; returns the outcome (if it
/// finished) and everything written, with the pause flags.
fn drive(mut s: BootSession, replies: &[(usize, u8)]) -> (Option<Result<(), BootError>>, Vec<u8>, Vec<bool>) {
    let mut written = Vec::new();
    let mut pauses = Vec::new();
    let mut next = 0;
    loop {
        match s.next_action() {
            BootAction::ReadReply => {
                if next == replies.len() {
                    return (None, written, pauses);
                }
                let (n, b) = replies[next];
                next += 1;
                s.replied(n, b);
            }
            BootAction::Write { bytes, pause } => {
                assert!(bytes.len() <= 8 && !bytes.is_empty());
                written.extend_from_slice(&bytes);
                pauses.push(pause);
                s.wrote();
            }
            BootAction::Finished(r) => return (Some(r), written, pauses),
        }
    }
}

const ACCEPT: [(usize, u8); 4] = [(1, GET_PROG_INFO), (1, BOOT_ACK), (1, GET_CODE), (1, BOOT_SUCCESS)];

#[test]
fn accepted_exchange_writes_packet_then_image() {
    let image: Vec<u8> = (0u8..20).collect();
    let s = BootSession::new(image.clone(), 0x8000);
    let mut info = vec![0x69, 0, 0, 0x80, 0];
    info.extend_from_slice(&crc(&image).to_be_bytes());
    info.extend_from_slice(&[0, 0, 0, 20]);
    let (r, written, pauses) = drive(s, &ACCEPT);
    assert_eq!(r, Some(Ok(())));
    let mut expected = info.clone();
    expected.extend_from_slice(&image);
    assert_eq!(written, expected);
    // two packet chunks without pause, three image chunks with
    assert_eq!(pauses, vec![false, false, true, true, true]);
}

#[test]
fn empty_image_goes_straight_to_status() {
    let s = full_boot(Vec::new());
    let (r, written, _) = drive(s, &ACCEPT);
    assert_eq!(r, Some(Ok(())));
    assert_eq!(written.len(), 13);
}

#[test]
fn wrong_start_code_fails() {
    let s = full_boot(vec![1, 2, 3]);
    let (r, written, _) = drive(s, &[(1, 0x55)]);
    assert_eq!(r, Some(Err(BootError::NoStartCode)));
    assert!(written.is_empty());
}

#[test]
fn missing_ack_fails() {
    let s = full_boot(vec![1, 2, 3]);
    let (r, written, _) = drive(s, &[(1, GET_PROG_INFO), (1, 0x00)]);
    assert_eq!(r, Some(Err(BootError::DownloadIssue)));
    assert_eq!(written.len(), 8);
}

#[test]
fn too_big_fails_before_code() {
    let s = full_boot(vec![1, 2, 3]);
    let (r, written, _) = drive(s, &[(1, GET_PROG_INFO), (1, BOOT_ACK), (1, BOOT_ERROR_BIG)]);
    assert_eq!(r, Some(Err(BootError::TooBig)));
    assert_eq!(written.len(), 13);
}

#[test]
fn crc_mismatch_reported() {
    let s = full_boot(vec![1, 2, 3]);
    let (r, written, _) = drive(
        s,
        &[(1, GET_PROG_INFO), (1, BOOT_ACK), (1, GET_CODE), (1, BOOT_ERROR_CRC)],
    );
    assert_eq!(r, Some(Err(BootError::CrcMismatch)));
    assert_eq!(written.len(), 16);
}

#[test]
fn unexpected_code_request_fails() {
    let s = full_boot(vec![9; 9]);
    let (r, _, _) = drive(s, &[(1, GET_PROG_INFO), (1, BOOT_ACK), (1, BOOT_SUCCESS)]);
    assert_eq!(r, Some(Err(BootError::UnexpectedNetworkCode)));
}

#[test]
fn two_byte_status_fails() {
    let s = full_boot(vec![9; 9]);
    let (r, _, _) = drive(s, &[(1, GET_PROG_INFO), (1, BOOT_ACK), (1, GET_CODE), (2, BOOT_SUCCESS)]);
    assert_eq!(r, Some(Err(BootError::UnexpectedByteCount)));
}

#[test]
fn silence_leaves_session_waiting() {
    let s = full_boot(vec![9; 9]);
    let (r, written, _) = drive(s, &[(1, GET_PROG_INFO)]);
    assert_eq!(r, None);
    assert_eq!(written.len(), 8);
}

#[test]
fn full_boot_announces_image() {
    let image = b"kernel".to_vec();
    let s = full_boot(image.clone());
    assert_eq!(s.current_stage(), Stage::AwaitInfoRequest);
    assert_eq!(s.announced_crc(), crc(&image));
    assert_eq!(s.image_len(), 6);
    assert_eq!(BOOT_CODE_ADDRESS, 0x8000);
}

#[test]
fn test_boot_image() {
    let s = test_boot();
    assert_eq!(s.image_len(), TEST_IMAGE_LEN);
    let expected: Vec<u8> = (0..100000usize).map(|i| (i % 255) as u8).collect();
    assert_eq!(s.announced_crc(), crc(&expected));
    let (r, written, _) = drive(s, &ACCEPT);
    assert_eq!(r, Some(Ok(())));
    assert_eq!(&written[13..], &expected[..]);
}
