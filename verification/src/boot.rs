//! The two ways the boot program starts an exchange: with the image the user
//! named, or with a generated test image. Both load at `BOOT_CODE_ADDRESS`.

use vstd::prelude::*;
use crate::crc::crc32_of;
use crate::protocol::{prog_info_bytes, BOOT_CODE_ADDRESS};
use crate::session::{BootSession, Stage};

verus! {

/// Size of the generated test image.
pub const TEST_IMAGE_LEN: usize = 100000;

/// The generated test image: byte `i` is `i` modulo 255.
pub open spec fn test_image() -> Seq<u8> {
    Seq::new(TEST_IMAGE_LEN as nat, |i: int| (i % 255) as u8)
}

/// The exchange that loads `image` at the boot address.
pub fn full_boot(image: Vec<u8>) -> (s: BootSession)
    ensures
        s.image() == image@,
        s.info() == prog_info_bytes(BOOT_CODE_ADDRESS, crc32_of(image@), image@.len() as u32),
        s.stage() == Stage::AwaitInfoRequest,
{
    BootSession::new(image, BOOT_CODE_ADDRESS)
}

/// The exchange that loads the generated test image at the boot address.
pub fn test_boot() -> (s: BootSession)
    ensures
        s.image() == test_image(),
        s.info() == prog_info_bytes(
            BOOT_CODE_ADDRESS,
            crc32_of(test_image()),
            TEST_IMAGE_LEN as u32,
        ),
        s.stage() == Stage::AwaitInfoRequest,
{
    let mut image: Vec<u8> = Vec::new();
    let mut i: usize = 0;
    while i < TEST_IMAGE_LEN
        invariant
            i <= TEST_IMAGE_LEN,
            image@ =~= test_image().take(i as int),
        decreases TEST_IMAGE_LEN - i,
    {
        image.push((i % 255) as u8);
        i = i + 1;
    }
    assert(image@ =~= test_image());
    BootSession::new(image, BOOT_CODE_ADDRESS)
}

} // verus!
