//! The boot exchange as a state machine.
//!
//! The host waits for the Pi to ask for the program info, sends the
//! program-info packet in UART-sized chunks (each chunk but the last
//! acknowledged), waits for the request for the code, sends the image in
//! chunks with a short pause after each, and reads the final status.
//! A `BootSession` decides; the program around it performs the reads and
//! writes that `next_action` asks for and reports back with `wrote` and
//! `replied`.

use vstd::prelude::*;
use crate::crc::{crc, crc32_of};
use crate::protocol::{
    ack_verdict, check_ack, check_code_request, check_info_request, check_status, chunk,
    chunk_at, chunk_count, code_request_verdict, info_request_verdict, num_chunks,
    prog_info_bytes, prog_info_packet, status_verdict, BootError, PROG_INFO_LEN,
    chunks_from, lemma_chunks_from, lemma_chunks_rebuild, UART_CHUNK, BOOT_ACK, BOOT_SUCCESS,
    GET_CODE, GET_PROG_INFO, BOOT_ERROR_BIG, BOOT_ERROR_CRC,
};

verus! {

/// Where an exchange stands.
#[derive(Clone, Copy, Debug, PartialEq, Eq, Structural)]
pub enum Stage {
    /// Waiting for the Pi to ask for the program info.
    AwaitInfoRequest,
    /// About to send the given chunk of the program-info packet.
    SendInfo(usize),
    /// Waiting for the acknowledgement of the given chunk of the packet.
    AwaitAck(usize),
    /// Waiting for the Pi to ask for the code.
    AwaitCodeRequest,
    /// About to send the given chunk of the image.
    SendCode(usize),
    /// Waiting for the final status.
    AwaitStatus,
    /// The Pi reported success.
    Succeeded,
    /// The exchange failed.
    Failed(BootError),
}

/// What the program around the session is to do next.
#[derive(Debug)]
pub enum BootAction {
    /// Read one reply from the serial port.
    ReadReply,
    /// Write these bytes and flush; when `pause` is set, wait a little after.
    Write { bytes: Vec<u8>, pause: bool },
    /// The exchange is over.
    Finished(Result<(), BootError>),
}

/// Number of chunks of the program-info packet.
pub open spec fn info_chunks() -> nat {
    num_chunks(PROG_INFO_LEN as nat)
}

/// The stage after the bytes asked for in `st` were written. (An image held
/// in memory has fewer than `usize::MAX` chunks, so the bound on `c` only
/// keeps the index representable.)
pub open spec fn stage_after_write(st: Stage, code_chunks: nat) -> Stage {
    match st {
        Stage::SendInfo(c) => if c + 1 < info_chunks() {
            Stage::AwaitAck(c)
        } else {
            Stage::AwaitCodeRequest
        },
        Stage::SendCode(c) => if c + 1 < code_chunks && c < usize::MAX {
            Stage::SendCode((c + 1) as usize)
        } else {
            Stage::AwaitStatus
        },
        _ => st,
    }
}

/// The stage after a reply of `count` bytes whose first byte is `first`.
pub open spec fn stage_after_reply(st: Stage, count: usize, first: u8, code_chunks: nat) -> Stage {
    match st {
        Stage::AwaitInfoRequest => match info_request_verdict(count, first) {
            Ok(_) => Stage::SendInfo(0),
            Err(e) => Stage::Failed(e),
        },
        Stage::AwaitAck(c) => match ack_verdict(count, first) {
            Ok(_) => Stage::SendInfo((c + 1) as usize),
            Err(e) => Stage::Failed(e),
        },
        Stage::AwaitCodeRequest => match code_request_verdict(count, first) {
            Ok(_) => if code_chunks == 0 {
                Stage::AwaitStatus
            } else {
                Stage::SendCode(0)
            },
            Err(e) => Stage::Failed(e),
        },
        Stage::AwaitStatus => match status_verdict(count, first) {
            Ok(_) => Stage::Succeeded,
            Err(e) => Stage::Failed(e),
        },
        _ => st,
    }
}

/// Whether `a` is what a session in stage `st`, sending `info` and then
/// `image`, asks for.
pub open spec fn action_for(info: Seq<u8>, image: Seq<u8>, st: Stage, a: BootAction) -> bool {
    match st {
        Stage::SendInfo(c) => a matches BootAction::Write { bytes, pause } && bytes@ == chunk_at(
            info,
            c as nat,
        ) && !pause,
        Stage::SendCode(c) => a matches BootAction::Write { bytes, pause } && bytes@ == chunk_at(
            image,
            c as nat,
        ) && pause,
        Stage::Succeeded => a matches BootAction::Finished(r) && r == Ok::<(), BootError>(()),
        Stage::Failed(e) => a matches BootAction::Finished(r) && r == Err::<(), BootError>(e),
        _ => a is ReadReply,
    }
}

/// Whether the indices held by `st` fit the packet and an image of
/// `code_chunks` chunks.
pub open spec fn stage_fits(st: Stage, code_chunks: nat) -> bool {
    match st {
        Stage::SendInfo(c) => c < info_chunks(),
        Stage::AwaitAck(c) => c + 1 < info_chunks(),
        Stage::SendCode(c) => c < code_chunks,
        _ => true,
    }
}

/// One boot exchange: the image, its program-info packet and the stage.
pub struct BootSession {
    info: Vec<u8>,
    image: Vec<u8>,
    checksum: u32,
    stage: Stage,
}

impl BootSession {
    #[verifier::type_invariant]
    spec fn well_formed(self) -> bool {
        &&& self.info@.len() == PROG_INFO_LEN
        &&& self.checksum == crc32_of(self.image@)
        &&& stage_fits(self.stage, num_chunks(self.image@.len()))
    }

    /// The program-info packet.
    pub closed spec fn info(self) -> Seq<u8> {
        self.info@
    }

    /// The image.
    pub closed spec fn image(self) -> Seq<u8> {
        self.image@
    }

    /// Where the exchange stands.
    pub closed spec fn stage(self) -> Stage {
        self.stage
    }

    /// Number of chunks of the image.
    pub open spec fn code_chunks(self) -> nat {
        num_chunks(self.image().len())
    }

    /// A new exchange that loads `image` at `address`. The announced length
    /// is the image's length taken modulo 2^32.
    pub fn new(image: Vec<u8>, address: u32) -> (s: BootSession)
        ensures
            s.image() == image@,
            s.info() == prog_info_bytes(address, crc32_of(image@), image@.len() as u32),
            s.stage() == Stage::AwaitInfoRequest,
    {
        let checksum = crc(&image);
        let info = prog_info_packet(address, checksum, image.len() as u32);
        BootSession { info, image, checksum, stage: Stage::AwaitInfoRequest }
    }

    /// The stage, for the program around the session.
    pub fn current_stage(&self) -> (st: Stage)
        ensures
            st == self.stage(),
    {
        self.stage
    }

    /// The CRC-32 of the image, as announced in the packet.
    pub fn announced_crc(&self) -> (c: u32)
        ensures
            c == crc32_of(self.image()),
    {
        proof {
            use_type_invariant(self);
        }
        self.checksum
    }

    /// The length of the image.
    pub fn image_len(&self) -> (n: usize)
        ensures
            n == self.image().len(),
    {
        self.image.len()
    }

    /// What to do next.
    pub fn next_action(&self) -> (a: BootAction)
        ensures
            action_for(self.info(), self.image(), self.stage(), a),
    {
        proof {
            use_type_invariant(self);
        }
        match self.stage {
            Stage::SendInfo(c) => BootAction::Write { bytes: chunk(&self.info, c), pause: false },
            Stage::SendCode(c) => BootAction::Write { bytes: chunk(&self.image, c), pause: true },
            Stage::Succeeded => BootAction::Finished(Ok(())),
            Stage::Failed(e) => BootAction::Finished(Err(e)),
            _ => BootAction::ReadReply,
        }
    }

    /// Records that the bytes asked for were written. In a stage that asks
    /// for no write, nothing changes.
    pub fn wrote(&mut self)
        ensures
            final(self).info() == old(self).info(),
            final(self).image() == old(self).image(),
            final(self).stage() == stage_after_write(old(self).stage(), old(self).code_chunks()),
    {
        proof {
            use_type_invariant(&*self);
        }
        let n = chunk_count(self.image.len());
        let next = match self.stage {
            Stage::SendInfo(c) => if c + 1 < chunk_count(PROG_INFO_LEN) {
                Stage::AwaitAck(c)
            } else {
                Stage::AwaitCodeRequest
            },
            Stage::SendCode(c) => if c + 1 < n {
                Stage::SendCode(c + 1)
            } else {
                Stage::AwaitStatus
            },
            other => other,
        };
        self.stage = next;
    }

    /// Records a reply: `count` bytes were read, and `first` is the first
    /// byte of the read buffer afterwards. In a stage that awaits no reply,
    /// nothing changes.
    pub fn replied(&mut self, count: usize, first: u8)
        ensures
            final(self).info() == old(self).info(),
            final(self).image() == old(self).image(),
            final(self).stage() == stage_after_reply(
                old(self).stage(),
                count,
                first,
                old(self).code_chunks(),
            ),
    {
        proof {
            use_type_invariant(&*self);
        }
        let n = chunk_count(self.image.len());
        let next = match self.stage {
            Stage::AwaitInfoRequest => match check_info_request(count, first) {
                Ok(_) => Stage::SendInfo(0),
                Err(e) => Stage::Failed(e),
            },
            Stage::AwaitAck(c) => match check_ack(count, first) {
                Ok(_) => Stage::SendInfo(c + 1),
                Err(e) => Stage::Failed(e),
            },
            Stage::AwaitCodeRequest => match check_code_request(count, first) {
                Ok(_) => if n == 0 {
                    Stage::AwaitStatus
                } else {
                    Stage::SendCode(0)
                },
                Err(e) => Stage::Failed(e),
            },
            Stage::AwaitStatus => match check_status(count, first) {
                Ok(_) => Stage::Succeeded,
                Err(e) => Stage::Failed(e),
            },
            other => other,
        };
        self.stage = next;
    }
}

// ---------------------------------------------------------------------------
// Whole exchanges
// ---------------------------------------------------------------------------

/// Writes still to come before the next reply is needed, as a measure.
pub open spec fn pending_writes(st: Stage, code_chunks: nat) -> nat {
    match st {
        Stage::SendInfo(_) => 1,
        Stage::SendCode(c) => if c < code_chunks {
            (code_chunks - c + 1) as nat
        } else {
            1
        },
        _ => 0,
    }
}

/// An exchange from stage `st` in which the Pi's replies are `replies`, in
/// order, each a byte count and the first byte of the read buffer: the stage
/// where it stops (finished, or waiting for a reply that never came) and
/// every byte written on the way.
pub open spec fn run(info: Seq<u8>, image: Seq<u8>, st: Stage, replies: Seq<(usize, u8)>) -> (
    Stage,
    Seq<u8>,
)
    decreases replies.len(), pending_writes(st, num_chunks(image.len())),
{
    let n = num_chunks(image.len());
    match st {
        Stage::SendInfo(c) => {
            let rest = run(info, image, stage_after_write(st, n), replies);
            (rest.0, chunk_at(info, c as nat) + rest.1)
        },
        Stage::SendCode(c) => {
            let rest = run(info, image, stage_after_write(st, n), replies);
            (rest.0, chunk_at(image, c as nat) + rest.1)
        },
        Stage::Succeeded => (st, Seq::empty()),
        Stage::Failed(_) => (st, Seq::empty()),
        _ => if replies.len() == 0 {
            (st, Seq::empty())
        } else {
            run(info, image, stage_after_reply(st, replies[0].0, replies[0].1, n), replies.drop_first())
        },
    }
}

/// The replies of a Pi that accepts the image: the request for the program
/// info, the acknowledgement of the packet's first chunk, the request for the
/// code and the success status.
pub open spec fn accepting_replies() -> Seq<(usize, u8)> {
    seq![(1usize, GET_PROG_INFO), (1usize, BOOT_ACK), (1usize, GET_CODE), (1usize, BOOT_SUCCESS)]
}

proof fn lemma_code_phase(info: Seq<u8>, image: Seq<u8>, c: nat, replies: Seq<(usize, u8)>)
    requires
        c <= num_chunks(image.len()),
        image.len() <= usize::MAX,
    ensures
        ({
            let st = if c < num_chunks(image.len()) {
                Stage::SendCode(c as usize)
            } else {
                Stage::AwaitStatus
            };
            let r = run(info, image, st, replies);
            &&& r.0 == Stage::Succeeded <==> (replies.len() >= 1 && replies[0] == (
                1usize,
                BOOT_SUCCESS,
            ))
            &&& r.1 == chunks_from(image, c)
        }),
    decreases num_chunks(image.len()) - c,
{
    let n = num_chunks(image.len());
    lemma_chunks_from(image, c);
    if c < n {
        lemma_chunks_from(image, c + 1);
        if c + 1 < n {
            assert((c + 1) * UART_CHUNK < image.len());
        }
        lemma_code_phase(info, image, c + 1, replies);
    } else {
        assert(chunks_from(image, c) == Seq::<u8>::empty());
        if replies.len() >= 1 {
            let rest = replies.drop_first();
            let next = stage_after_reply(Stage::AwaitStatus, replies[0].0, replies[0].1, n);
            assert(next is Succeeded || next is Failed);
            assert(run(info, image, next, rest).1 == Seq::<u8>::empty());
        }
    }
}

/// Whether a session succeeds, and what it writes: from its start, an
/// exchange ends in success exactly when the first four replies are the
/// accepting ones, each a single byte; and a Pi that gives them receives the
/// program-info packet followed by the whole image.
pub proof fn lemma_exchange(info: Seq<u8>, image: Seq<u8>, replies: Seq<(usize, u8)>)
    requires
        info.len() == PROG_INFO_LEN,
        image.len() <= usize::MAX,
    ensures
        run(info, image, Stage::AwaitInfoRequest, replies).0 == Stage::Succeeded <==> (
        replies.len() >= 4 && replies.take(4) == accepting_replies()),
        run(info, image, Stage::AwaitInfoRequest, accepting_replies()) == (
            Stage::Succeeded,
            info + image,
        ),
{
    lemma_exchange_with(info, image, replies);
    lemma_exchange_with(info, image, accepting_replies());
    lemma_chunks_rebuild(info);
    lemma_chunks_rebuild(image);
    lemma_chunks_from(info, 0);
    lemma_chunks_from(info, 1);
    lemma_chunks_from(info, 2);
    assert(chunks_from(info, 0) == chunk_at(info, 0) + (chunk_at(info, 1) + Seq::<u8>::empty()));
    assert(chunk_at(info, 0) + (chunk_at(info, 1) + chunks_from(image, 0)) =~= info + image);
    assert(accepting_replies().take(4) =~= accepting_replies());
}

proof fn lemma_exchange_with(info: Seq<u8>, image: Seq<u8>, replies: Seq<(usize, u8)>)
    requires
        info.len() == PROG_INFO_LEN,
        image.len() <= usize::MAX,
    ensures
        run(info, image, Stage::AwaitInfoRequest, replies).0 == Stage::Succeeded <==> (
        replies.len() >= 4 && replies.take(4) == accepting_replies()),
        replies.len() >= 4 && replies.take(4) == accepting_replies() ==> run(
            info,
            image,
            Stage::AwaitInfoRequest,
            replies,
        ).1 == chunk_at(info, 0) + (chunk_at(info, 1) + chunks_from(image, 0)),
{
    let n = num_chunks(image.len());
    let good = accepting_replies();
    assert(info_chunks() == 2);
    if replies.len() == 0 {
        assert(run(info, image, Stage::AwaitInfoRequest, replies).0 == Stage::AwaitInfoRequest);
        return ;
    }
    let r1 = replies.drop_first();
    let s1 = stage_after_reply(Stage::AwaitInfoRequest, replies[0].0, replies[0].1, n);
    assert(run(info, image, Stage::AwaitInfoRequest, replies) == run(info, image, s1, r1));
    if s1 != Stage::SendInfo(0) {
        assert(run(info, image, s1, r1).0 == s1);
        assert(replies[0] != good[0]);
        if replies.len() >= 4 {
            assert(replies.take(4)[0] == replies[0]);
        }
        return ;
    }
    assert(replies[0] == good[0]);
    // first chunk of the packet, then its acknowledgement
    let ack = run(info, image, Stage::AwaitAck(0), r1);
    assert(run(info, image, s1, r1) == (ack.0, chunk_at(info, 0) + ack.1));
    if r1.len() == 0 {
        assert(ack.0 == Stage::AwaitAck(0));
        return ;
    }
    let r2 = r1.drop_first();
    let s2 = stage_after_reply(Stage::AwaitAck(0), r1[0].0, r1[0].1, n);
    assert(ack == run(info, image, s2, r2));
    if s2 != Stage::SendInfo(1) {
        assert(run(info, image, s2, r2).0 == s2);
        assert(r1[0] != good[1]);
        if replies.len() >= 4 {
            assert(replies.take(4)[1] == r1[0]);
        }
        return ;
    }
    assert(r1[0] == good[1]);
    // second chunk of the packet, then the request for the code
    let req = run(info, image, Stage::AwaitCodeRequest, r2);
    assert(run(info, image, s2, r2) == (req.0, chunk_at(info, 1) + req.1));
    if r2.len() == 0 {
        assert(req.0 == Stage::AwaitCodeRequest);
        return ;
    }
    let r3 = r2.drop_first();
    let s3 = stage_after_reply(Stage::AwaitCodeRequest, r2[0].0, r2[0].1, n);
    assert(req == run(info, image, s3, r3));
    if s3 is Failed {
        assert(run(info, image, s3, r3).0 == s3);
        assert(r2[0] != good[2]);
        if replies.len() >= 4 {
            assert(replies.take(4)[2] == r2[0]);
        }
        return ;
    }
    assert(r2[0] == good[2]);
    lemma_chunks_from(image, 0);
    lemma_code_phase(info, image, 0, r3);
    if r3.len() >= 1 {
        assert(replies.take(4)[3] == r3[0]);
        if r3[0] == good[3] {
            assert(replies.take(4) =~= good);
        }
    } else {
        assert(replies.len() == 3);
    }
}

/// The bytes that a session in stage `st` has yet to write, in order.
pub open spec fn still_to_write(info: Seq<u8>, image: Seq<u8>, st: Stage) -> Seq<u8> {
    match st {
        Stage::AwaitInfoRequest => info + image,
        Stage::SendInfo(c) => chunks_from(info, c as nat) + image,
        Stage::AwaitAck(c) => chunks_from(info, (c + 1) as nat) + image,
        Stage::AwaitCodeRequest => image,
        Stage::SendCode(c) => chunks_from(image, c as nat),
        _ => Seq::empty(),
    }
}

proof fn lemma_run_writes_prefix(
    info: Seq<u8>,
    image: Seq<u8>,
    st: Stage,
    replies: Seq<(usize, u8)>,
)
    requires
        info.len() == PROG_INFO_LEN,
        image.len() <= usize::MAX,
        stage_fits(st, num_chunks(image.len())),
    ensures
        run(info, image, st, replies).1.is_prefix_of(still_to_write(info, image, st)),
    decreases replies.len(), pending_writes(st, num_chunks(image.len())),
{
    let n = num_chunks(image.len());
    let todo = still_to_write(info, image, st);
    assert(info_chunks() == 2);
    lemma_chunks_rebuild(info);
    lemma_chunks_rebuild(image);
    match st {
        Stage::SendInfo(c) => {
            let next = stage_after_write(st, n);
            lemma_run_writes_prefix(info, image, next, replies);
            lemma_chunks_from(info, c as nat);
            lemma_chunks_from(info, (c + 1) as nat);
            let rest = run(info, image, next, replies).1;
            let head = chunk_at(info, c as nat);
            assert(todo =~= head + still_to_write(info, image, next));
            assert((head + rest).is_prefix_of(todo)) by {
                assert forall|i: int| 0 <= i < (head + rest).len() implies (head + rest)[i]
                    == todo[i] by {
                    if i >= head.len() {
                        assert(rest[i - head.len()] == still_to_write(info, image, next)[i
                            - head.len()]);
                    }
                }
            }
        },
        Stage::SendCode(c) => {
            let next = stage_after_write(st, n);
            lemma_chunks_from(image, c as nat);
            lemma_chunks_from(image, (c + 1) as nat);
            assert((c + 1) < n ==> (c + 1) * UART_CHUNK < image.len());
            lemma_run_writes_prefix(info, image, next, replies);
            let rest = run(info, image, next, replies).1;
            let head = chunk_at(image, c as nat);
            assert(todo =~= head + still_to_write(info, image, next));
            assert((head + rest).is_prefix_of(todo)) by {
                assert forall|i: int| 0 <= i < (head + rest).len() implies (head + rest)[i]
                    == todo[i] by {
                    if i >= head.len() {
                        assert(rest[i - head.len()] == still_to_write(info, image, next)[i
                            - head.len()]);
                    }
                }
            }
        },
        Stage::Succeeded => {},
        Stage::Failed(_) => {},
        _ => {
            if replies.len() > 0 {
                let next = stage_after_reply(st, replies[0].0, replies[0].1, n);
                lemma_run_writes_prefix(info, image, next, replies.drop_first());
                if n > 0 {
                    lemma_chunks_from(image, 0);
                }
                assert(still_to_write(info, image, next).is_prefix_of(todo));
            }
        },
    }
}

/// Whatever the Pi answers, the bytes a session writes from its start are a
/// prefix of the program-info packet followed by the image: nothing else is
/// ever sent, and nothing out of order.
pub proof fn lemma_writes_are_prefix(info: Seq<u8>, image: Seq<u8>, replies: Seq<(usize, u8)>)
    requires
        info.len() == PROG_INFO_LEN,
        image.len() <= usize::MAX,
    ensures
        run(info, image, Stage::AwaitInfoRequest, replies).1.is_prefix_of(info + image),
{
    lemma_run_writes_prefix(info, image, Stage::AwaitInfoRequest, replies);
}

/// How a refused exchange is answered, from its start: a first reply other
/// than a request for the program info fails with `NoStartCode`; a missing or
/// wrong acknowledgement of the packet with `DownloadIssue`; a BOOT_ERROR_BIG
/// in place of the request for the code with `TooBig`; and, once the code was
/// requested, a status of more or fewer than one byte with
/// `UnexpectedByteCount`, a BOOT_ERROR_CRC with `CrcMismatch` and any other
/// code with `UnexpectedNetworkCode`.
pub proof fn lemma_exchange_errors(info: Seq<u8>, image: Seq<u8>, replies: Seq<(usize, u8)>)
    requires
        info.len() == PROG_INFO_LEN,
        image.len() <= usize::MAX,
        replies.len() >= 1,
    ensures
        ({
            let end = run(info, image, Stage::AwaitInfoRequest, replies).0;
            let good = accepting_replies();
            &&& replies[0].1 != GET_PROG_INFO ==> end == Stage::Failed(BootError::NoStartCode)
            &&& replies.len() >= 2 && replies[0] == good[0] && replies[1] != good[1] ==> end
                == Stage::Failed(BootError::DownloadIssue)
            &&& replies.len() >= 3 && replies[0] == good[0] && replies[1] == good[1]
                && replies[2].1 == BOOT_ERROR_BIG ==> end == Stage::Failed(BootError::TooBig)
            &&& replies.len() >= 4 && replies.take(3) == good.take(3) && replies[3].0 != 1 ==> end
                == Stage::Failed(BootError::UnexpectedByteCount)
            &&& replies.len() >= 4 && replies.take(3) == good.take(3) && replies[3] == (
                1usize,
                BOOT_ERROR_CRC,
            ) ==> end == Stage::Failed(BootError::CrcMismatch)
            &&& replies.len() >= 4 && replies.take(3) == good.take(3) && replies[3].0 == 1
                && replies[3].1 != BOOT_ERROR_CRC && replies[3].1 != BOOT_SUCCESS ==> end
                == Stage::Failed(BootError::UnexpectedNetworkCode)
        }),
{
    let n = num_chunks(image.len());
    let good = accepting_replies();
    assert(info_chunks() == 2);
    assert(good[0] == (1usize, GET_PROG_INFO));
    assert(good[1] == (1usize, BOOT_ACK));
    assert(good[2] == (1usize, GET_CODE));
    if replies.len() >= 4 && replies.take(3) == good.take(3) {
        assert(replies[0] == replies.take(3)[0]);
        assert(replies[1] == replies.take(3)[1]);
        assert(replies[2] == replies.take(3)[2]);
    }
    let r1 = replies.drop_first();
    let s1 = stage_after_reply(Stage::AwaitInfoRequest, replies[0].0, replies[0].1, n);
    assert(run(info, image, Stage::AwaitInfoRequest, replies) == run(info, image, s1, r1));
    if s1 != Stage::SendInfo(0) {
        assert(run(info, image, s1, r1).0 == s1);
        return ;
    }
    let ack = run(info, image, Stage::AwaitAck(0), r1);
    assert(run(info, image, s1, r1) == (ack.0, chunk_at(info, 0) + ack.1));
    if r1.len() == 0 {
        return ;
    }
    let r2 = r1.drop_first();
    let s2 = stage_after_reply(Stage::AwaitAck(0), r1[0].0, r1[0].1, n);
    assert(ack == run(info, image, s2, r2));
    if s2 != Stage::SendInfo(1) {
        assert(run(info, image, s2, r2).0 == s2);
        return ;
    }
    let req = run(info, image, Stage::AwaitCodeRequest, r2);
    assert(run(info, image, s2, r2) == (req.0, chunk_at(info, 1) + req.1));
    if r2.len() == 0 {
        return ;
    }
    let r3 = r2.drop_first();
    let s3 = stage_after_reply(Stage::AwaitCodeRequest, r2[0].0, r2[0].1, n);
    assert(req == run(info, image, s3, r3));
    if s3 is Failed {
        assert(run(info, image, s3, r3).0 == s3);
        return ;
    }
    if replies.len() >= 4 && replies.take(3) == good.take(3) {
        assert(replies[0] == replies.take(3)[0]);
        assert(replies[1] == replies.take(3)[1]);
        assert(replies[2] == replies.take(3)[2]);
        lemma_status_after_code(info, image, 0, r3);
    }
}

proof fn lemma_status_after_code(info: Seq<u8>, image: Seq<u8>, c: nat, replies: Seq<(usize, u8)>)
    requires
        c <= num_chunks(image.len()),
        image.len() <= usize::MAX,
        replies.len() >= 1,
    ensures
        ({
            let st = if c < num_chunks(image.len()) {
                Stage::SendCode(c as usize)
            } else {
                Stage::AwaitStatus
            };
            run(info, image, st, replies).0 == match status_verdict(replies[0].0, replies[0].1) {
                Ok(_) => Stage::Succeeded,
                Err(e) => Stage::Failed(e),
            }
        }),
    decreases num_chunks(image.len()) - c,
{
    let n = num_chunks(image.len());
    if c < n {
        lemma_chunks_from(image, c + 1);
        if c + 1 < n {
            assert((c + 1) * UART_CHUNK < image.len());
        }
        lemma_status_after_code(info, image, c + 1, replies);
    } else {
        let next = stage_after_reply(Stage::AwaitStatus, replies[0].0, replies[0].1, n);
        assert(run(info, image, next, replies.drop_first()).0 == next);
    }
}

} // verus!
