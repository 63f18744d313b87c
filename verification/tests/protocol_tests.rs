use piboot::crc::crc;
use piboot::protocol::{
    check_ack, check_code_request, check_info_request, check_status, chunk, chunk_count,
    prog_info_packet, BootError, BOOT_ACK, BOOT_ERROR_BIG, BOOT_ERROR_CRC, BOOT_SUCCESS, GET_CODE,
    GET_PROG_INFO, PUT_PROG_INFO,
};

#[test]
fn prog_info_packet_layout() {
    let p = prog_info_packet(0x8000, 0xCBF4_3926, 9);
    assert_eq!(
        p,
        vec![PUT_PROG_INFO, 0, 0, 0x80, 0, 0xCB, 0xF4, 0x39, 0x26, 0, 0, 0, 9]
    );
}

#[test]
fn prog_info_fields_read_back() {
    let p = prog_info_packet(0x1234_5678, 0xDEAD_BEEF, 100000);
    let field = |a: usize| u32::from_be_bytes([p[a], p[a + 1], p[a + 2], p[a + 3]]);
    assert_eq!(p.len(), 13);
    assert_eq!(p[0], 0x69);
    assert_eq!(field(1), 0x1234_5678);
    assert_eq!(field(5), 0xDEAD_BEEF);
    assert_eq!(field(9), 100000);
}

#[test]
fn crc_check_value() {
    assert_eq!(crc(&b"123456789".to_vec()), 0xCBF4_3926);
}

#[test]
fn crc_of_nothing_and_of_one_byte() {
    assert_eq!(crc(&Vec::new()), 0);
    assert_eq!(crc(&vec![0u8]), 0xD202_EF8D);
    assert_eq!(crc(&b"a".to_vec()), 0xE8B7_BE43);
}

#[test]
fn chunk_counts() {
    assert_eq!(chunk_count(0), 0);
    assert_eq!(chunk_count(1), 1);
    assert_eq!(chunk_count(8), 1);
    assert_eq!(chunk_count(9), 2);
    assert_eq!(chunk_count(13), 2);
    assert_eq!(chunk_count(100000), 12500);
}

#[test]
fn chunks_rebuild_the_data() {
    let data: Vec<u8> = (0u8..21).collect();
    let n = chunk_count(data.len());
    assert_eq!(n, 3);
    let mut all = Vec::new();
    for i in 0..n {
        let c = chunk(&data, i);
        if i + 1 < n {
            assert_eq!(c.len(), 8);
        }
        all.extend_from_slice(&c);
    }
    assert_eq!(chunk(&data, 2), vec![16, 17, 18, 19, 20]);
    assert_eq!(all, data);
}

#[test]
fn info_request_verdicts() {
    assert_eq!(check_info_request(1, GET_PROG_INFO), Ok(()));
    assert_eq!(check_info_request(1, 0x00), Err(BootError::NoStartCode));
    assert_eq!(check_info_request(0, 0x00), Err(BootError::NoStartCode));
    assert_eq!(check_info_request(2, GET_PROG_INFO), Err(BootError::UnexpectedByteCount));
}

#[test]
fn ack_verdicts() {
    assert_eq!(check_ack(1, BOOT_ACK), Ok(()));
    assert_eq!(check_ack(2, BOOT_ACK), Err(BootError::DownloadIssue));
    assert_eq!(check_ack(1, GET_CODE), Err(BootError::DownloadIssue));
}

#[test]
fn code_request_verdicts() {
    assert_eq!(check_code_request(1, GET_CODE), Ok(()));
    assert_eq!(check_code_request(1, BOOT_ERROR_BIG), Err(BootError::TooBig));
    assert_eq!(check_code_request(3, BOOT_ERROR_BIG), Err(BootError::TooBig));
    assert_eq!(check_code_request(0, GET_CODE), Err(BootError::UnexpectedByteCount));
    assert_eq!(check_code_request(1, BOOT_ACK), Err(BootError::UnexpectedNetworkCode));
}

#[test]
fn status_verdicts() {
    assert_eq!(check_status(1, BOOT_SUCCESS), Ok(()));
    assert_eq!(check_status(1, BOOT_ERROR_CRC), Err(BootError::CrcMismatch));
    assert_eq!(check_status(0, BOOT_SUCCESS), Err(BootError::UnexpectedByteCount));
    assert_eq!(check_status(1, GET_CODE), Err(BootError::UnexpectedNetworkCode));
}

#[test]
fn error_messages() {
    assert_eq!(BootError::NoStartCode.message(), "Not seeing code request--hit reset?");
    assert_eq!(BootError::UnexpectedByteCount.message(), "Unexpected byte count");
    assert_eq!(BootError::UnexpectedNetworkCode.message(), "Unexpected network code");
    assert_eq!(BootError::TooBig.message(), "Compiled binary too big for pi");
    assert_eq!(BootError::DownloadIssue.message(), "Compiled binary too big for pi");
    assert_eq!(BootError::CrcMismatch.message(), "CRC mismatch");
}
