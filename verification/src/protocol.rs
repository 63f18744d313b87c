//! Wire format of the boot protocol: the byte codes, the program-info packet,
//! the framing of data into UART-sized chunks and the verdicts on the Pi's
//! one-byte replies.

use vstd::prelude::*;

verus! {

/// Acknowledges one chunk of the program-info packet.
pub const BOOT_ACK: u8 = 0x21;
/// Marks the start of a boot exchange.
pub const BOOT_START: u8 = 0x67;
/// The Pi asks for the program-info packet.
pub const GET_PROG_INFO: u8 = 0x68;
/// First byte of the program-info packet.
pub const PUT_PROG_INFO: u8 = 0x69;
/// The Pi asks for the program image.
pub const GET_CODE: u8 = 0x70;
/// Announces program bytes.
pub const PUT_CODE: u8 = 0x71;
/// The Pi received the image and its checksum matched.
pub const BOOT_SUCCESS: u8 = 0x72;
/// The Pi refuses an image that does not fit.
pub const BOOT_ERROR_BIG: u8 = 0x73;
/// The Pi computed another checksum than the one announced.
pub const BOOT_ERROR_CRC: u8 = 0x74;

/// Address at which the Pi places the image.
pub const BOOT_CODE_ADDRESS: u32 = 0x8000;
/// Receive buffer of the Pi's UART: data goes out in chunks of this size.
pub const UART_CHUNK: usize = 8;
/// Length of the program-info packet.
pub const PROG_INFO_LEN: usize = 13;

/// Why a boot exchange failed.
#[derive(Clone, Copy, Debug, PartialEq, Eq, Structural)]
pub enum BootError {
    /// The first reply was not a request for the program info.
    NoStartCode,
    /// A reply did not consist of exactly one byte.
    UnexpectedByteCount,
    /// A reply held a code that does not fit the exchange.
    UnexpectedNetworkCode,
    /// The Pi refused the image as too big.
    TooBig,
    /// A chunk of the program-info packet was not acknowledged.
    DownloadIssue,
    /// The Pi reported a checksum mismatch.
    CrcMismatch,
}

impl BootError {
    /// The text that goes with each error.
    pub fn message(&self) -> (m: &'static str)
        ensures
            m@ == error_message(*self)@,
    {
        match self {
            BootError::NoStartCode => "Not seeing code request--hit reset?",
            BootError::UnexpectedByteCount => "Unexpected byte count",
            BootError::UnexpectedNetworkCode => "Unexpected network code",
            BootError::TooBig => "Compiled binary too big for pi",
            BootError::DownloadIssue => "Compiled binary too big for pi",
            BootError::CrcMismatch => "CRC mismatch",
        }
    }
}

/// The text of an error.
pub open spec fn error_message(e: BootError) -> &'static str {
    match e {
        BootError::NoStartCode => "Not seeing code request--hit reset?",
        BootError::UnexpectedByteCount => "Unexpected byte count",
        BootError::UnexpectedNetworkCode => "Unexpected network code",
        BootError::TooBig => "Compiled binary too big for pi",
        BootError::DownloadIssue => "Compiled binary too big for pi",
        BootError::CrcMismatch => "CRC mismatch",
    }
}

// ---------------------------------------------------------------------------
// Big-endian encoding
// ---------------------------------------------------------------------------

/// The four bytes of `x`, most significant first.
pub open spec fn be_bytes(x: u32) -> Seq<u8> {
    seq![
        (x / 0x100_0000) as u8,
        ((x / 0x1_0000) % 0x100) as u8,
        ((x / 0x100) % 0x100) as u8,
        (x % 0x100) as u8,
    ]
}

/// The number that four bytes spell, most significant first.
pub open spec fn be_value(b: Seq<u8>) -> int {
    b[0] * 0x100_0000 + b[1] * 0x1_0000 + b[2] * 0x100 + b[3]
}

/// Decoding the big-endian bytes of a number gives the number back.
pub proof fn lemma_be_roundtrip(x: u32)
    ensures
        be_bytes(x).len() == 4,
        be_value(be_bytes(x)) == x,
{
    let b = be_bytes(x);
    assert(b[0] == x / 0x100_0000);
    assert(b[1] == (x / 0x1_0000) % 0x100);
    assert(b[2] == (x / 0x100) % 0x100);
    assert(b[3] == x % 0x100);
    assert(be_value(b) == x) by (nonlinear_arith)
        requires
            b[0] == x / 0x100_0000,
            b[1] == (x / 0x1_0000) % 0x100,
            b[2] == (x / 0x100) % 0x100,
            b[3] == x % 0x100,
            0 <= x < 0x1_0000_0000,
    ;
}

/// The big-endian bytes of `x`.
fn push_be(out: &mut Vec<u8>, x: u32)
    ensures
        final(out)@ == old(out)@ + be_bytes(x),
{
    out.push((x / 0x100_0000) as u8);
    out.push(((x / 0x1_0000) % 0x100) as u8);
    out.push(((x / 0x100) % 0x100) as u8);
    out.push((x % 0x100) as u8);
    assert(out@ =~= old(out)@ + be_bytes(x));
}

// ---------------------------------------------------------------------------
// The program-info packet
// ---------------------------------------------------------------------------

/// The program-info packet: its code, then the load address, the image's
/// checksum and the image's length, each as four big-endian bytes.
pub open spec fn prog_info_bytes(address: u32, crc: u32, len: u32) -> Seq<u8> {
    seq![PUT_PROG_INFO] + be_bytes(address) + be_bytes(crc) + be_bytes(len)
}

/// Builds the program-info packet.
pub fn prog_info_packet(address: u32, crc: u32, len: u32) -> (p: Vec<u8>)
    ensures
        p@ == prog_info_bytes(address, crc, len),
        p@.len() == PROG_INFO_LEN,
{
    let mut p: Vec<u8> = Vec::new();
    p.push(PUT_PROG_INFO);
    push_be(&mut p, address);
    push_be(&mut p, crc);
    push_be(&mut p, len);
    p
}

/// The packet carries its code at the front and the three fields at bytes
/// 1..5, 5..9 and 9..13, each read back as the number that was put in.
pub proof fn lemma_prog_info_fields(address: u32, crc: u32, len: u32)
    ensures
        ({
            let p = prog_info_bytes(address, crc, len);
            &&& p.len() == PROG_INFO_LEN
            &&& p[0] == PUT_PROG_INFO
            &&& be_value(p.subrange(1, 5)) == address
            &&& be_value(p.subrange(5, 9)) == crc
            &&& be_value(p.subrange(9, 13)) == len
        }),
{
    let p = prog_info_bytes(address, crc, len);
    lemma_be_roundtrip(address);
    lemma_be_roundtrip(crc);
    lemma_be_roundtrip(len);
    assert(p.subrange(1, 5) =~= be_bytes(address));
    assert(p.subrange(5, 9) =~= be_bytes(crc));
    assert(p.subrange(9, 13) =~= be_bytes(len));
}

// ---------------------------------------------------------------------------
// Chunks
// ---------------------------------------------------------------------------

/// How many chunks of `UART_CHUNK` bytes `len` bytes make, the last one
/// possibly shorter.
pub open spec fn num_chunks(len: nat) -> nat {
    ((len + UART_CHUNK - 1) / (UART_CHUNK as int)) as nat
}

/// Chunk `i` of `data`: bytes `8 i` up to `8 i + 8`, or up to the end.
pub open spec fn chunk_at(data: Seq<u8>, i: nat) -> Seq<u8> {
    let start = i * UART_CHUNK;
    let end = if start + UART_CHUNK <= data.len() { start + UART_CHUNK } else { data.len() as int };
    data.subrange(start as int, end)
}

/// The chunks `from`, `from + 1`, ... of `data`, laid end to end.
pub open spec fn chunks_from(data: Seq<u8>, from: nat) -> Seq<u8>
    decreases num_chunks(data.len()) - from,
{
    if from < num_chunks(data.len()) {
        chunk_at(data, from) + chunks_from(data, from + 1)
    } else {
        Seq::empty()
    }
}

/// Sending chunk after chunk, from chunk `from` on, sends exactly the bytes
/// of `data` from `8 from` on; every chunk but the last is full.
pub proof fn lemma_chunks_from(data: Seq<u8>, from: nat)
    requires
        from <= num_chunks(data.len()),
    ensures
        chunks_from(data, from) == data.subrange(
            if from * UART_CHUNK <= data.len() { from * UART_CHUNK } else { data.len() as int },
            data.len() as int,
        ),
        from < num_chunks(data.len()) ==> from * UART_CHUNK < data.len(),
        from + 1 < num_chunks(data.len()) ==> chunk_at(data, from).len() == UART_CHUNK,
        from < num_chunks(data.len()) ==> 0 < chunk_at(data, from).len() <= UART_CHUNK,
    decreases num_chunks(data.len()) - from,
{
    let n = num_chunks(data.len());
    if from < n {
        lemma_chunks_from(data, from + 1);
        let start = from * UART_CHUNK;
        if start + UART_CHUNK <= data.len() {
            assert(data.subrange(start as int, data.len() as int) =~= data.subrange(
                start as int,
                start + UART_CHUNK,
            ) + data.subrange(start + UART_CHUNK, data.len() as int));
        } else {
            assert(from + 1 >= n);
            assert(data.subrange(data.len() as int, data.len() as int) =~= Seq::<u8>::empty());
            assert(data.subrange(start as int, data.len() as int) + Seq::<u8>::empty()
                =~= data.subrange(start as int, data.len() as int));
        }
    } else {
        assert(from * UART_CHUNK >= data.len());
        assert(data.subrange(data.len() as int, data.len() as int) =~= Seq::<u8>::empty());
    }
}

/// The chunks of `data`, sent one after the other, are exactly `data`.
pub proof fn lemma_chunks_rebuild(data: Seq<u8>)
    ensures
        chunks_from(data, 0) == data,
{
    lemma_chunks_from(data, 0);
    assert(data.subrange(0, data.len() as int) =~= data);
}

/// The number of chunks of `len` bytes.
pub fn chunk_count(len: usize) -> (n: usize)
    ensures
        n == num_chunks(len as nat),
{
    len / UART_CHUNK + if len % UART_CHUNK == 0 { 0 } else { 1 }
}

/// Chunk `i` of `data`.
pub fn chunk(data: &Vec<u8>, i: usize) -> (c: Vec<u8>)
    requires
        i < num_chunks(data.len() as nat),
    ensures
        c@ == chunk_at(data@, i as nat),
{
    let start = i * UART_CHUNK;
    let end = if data.len() - start >= UART_CHUNK { start + UART_CHUNK } else { data.len() };
    let mut c: Vec<u8> = Vec::new();
    let mut k = start;
    while k < end
        invariant
            start <= k <= end <= data.len(),
            c@ == data@.subrange(start as int, k as int),
        decreases end - k,
    {
        c.push(data[k]);
        k = k + 1;
        assert(c@ =~= data@.subrange(start as int, k as int));
    }
    c
}

// ---------------------------------------------------------------------------
// Verdicts on the Pi's replies
// ---------------------------------------------------------------------------

/// Verdict on the reply that opens the exchange: `count` bytes were read and
/// `first` is the first byte of the read buffer afterwards.
pub open spec fn info_request_verdict(count: usize, first: u8) -> Result<(), BootError> {
    if first != GET_PROG_INFO {
        Err(BootError::NoStartCode)
    } else if count != 1 {
        Err(BootError::UnexpectedByteCount)
    } else {
        Ok(())
    }
}

/// Verdict on the reply to a chunk of the program-info packet.
pub open spec fn ack_verdict(count: usize, first: u8) -> Result<(), BootError> {
    if count != 1 || first != BOOT_ACK {
        Err(BootError::DownloadIssue)
    } else {
        Ok(())
    }
}

/// Verdict on the reply to the program-info packet.
pub open spec fn code_request_verdict(count: usize, first: u8) -> Result<(), BootError> {
    if first == BOOT_ERROR_BIG {
        Err(BootError::TooBig)
    } else if count != 1 {
        Err(BootError::UnexpectedByteCount)
    } else if first != GET_CODE {
        Err(BootError::UnexpectedNetworkCode)
    } else {
        Ok(())
    }
}

/// Verdict on the reply to the program image.
pub open spec fn status_verdict(count: usize, first: u8) -> Result<(), BootError> {
    if count != 1 {
        Err(BootError::UnexpectedByteCount)
    } else if first == BOOT_ERROR_CRC {
        Err(BootError::CrcMismatch)
    } else if first != BOOT_SUCCESS {
        Err(BootError::UnexpectedNetworkCode)
    } else {
        Ok(())
    }
}

/// Checks the reply that opens the exchange.
pub fn check_info_request(count: usize, first: u8) -> (r: Result<(), BootError>)
    ensures
        r == info_request_verdict(count, first),
{
    if first != GET_PROG_INFO {
        return Err(BootError::NoStartCode);
    }
    if count != 1 {
        return Err(BootError::UnexpectedByteCount);
    }
    Ok(())
}

/// Checks the acknowledgement of a chunk of the program-info packet.
pub fn check_ack(count: usize, first: u8) -> (r: Result<(), BootError>)
    ensures
        r == ack_verdict(count, first),
{
    if count != 1 || first != BOOT_ACK {
        return Err(BootError::DownloadIssue);
    }
    Ok(())
}

/// Checks the reply to the program-info packet.
pub fn check_code_request(count: usize, first: u8) -> (r: Result<(), BootError>)
    ensures
        r == code_request_verdict(count, first),
{
    if first == BOOT_ERROR_BIG {
        return Err(BootError::TooBig);
    }
    if count != 1 {
        Err(BootError::UnexpectedByteCount)
    } else if first != GET_CODE {
        Err(BootError::UnexpectedNetworkCode)
    } else {
        Ok(())
    }
}

/// Checks the reply to the program image.
pub fn check_status(count: usize, first: u8) -> (r: Result<(), BootError>)
    ensures
        r == status_verdict(count, first),
{
    if count != 1 {
        return Err(BootError::UnexpectedByteCount);
    }
    if first == BOOT_ERROR_CRC {
        Err(BootError::CrcMismatch)
    } else if first != BOOT_SUCCESS {
        Err(BootError::UnexpectedNetworkCode)
    } else {
        Ok(())
    }
}

} // verus!
