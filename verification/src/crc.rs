//! The CRC-32 checksum (reflected polynomial 0xEDB88320, initial register
//! all ones, final complement) that the boot exchange announces for an image.

use vstd::prelude::*;

verus! {

/// The reflected generator polynomial.
pub const CRC32_POLY: u32 = 0xEDB8_8320;

/// One shift of the register: out goes the low bit, and the polynomial is
/// folded in when that bit was set.
pub open spec fn crc_shift(c: u32) -> u32 {
    if c & 1 == 1 {
        (c >> 1) ^ CRC32_POLY
    } else {
        c >> 1
    }
}

/// `k` shifts of the register.
pub open spec fn crc_shifts(c: u32, k: nat) -> u32
    decreases k,
{
    if k == 0 {
        c
    } else {
        crc_shifts(crc_shift(c), (k - 1) as nat)
    }
}

/// The register after taking in one byte.
pub open spec fn crc_feed(c: u32, b: u8) -> u32 {
    crc_shifts(c ^ (b as u32), 8)
}

/// The register after taking in `data`, starting from all ones.
pub open spec fn crc_register(data: Seq<u8>) -> u32
    decreases data.len(),
{
    if data.len() == 0 {
        0xFFFF_FFFF
    } else {
        crc_feed(crc_register(data.drop_last()), data.last())
    }
}

/// The CRC-32 of `data`: the complement of the final register.
pub open spec fn crc32_of(data: Seq<u8>) -> u32 {
    crc_register(data) ^ 0xFFFF_FFFF
}

/// Computes the CRC-32 of `data`.
pub fn crc(data: &Vec<u8>) -> (c: u32)
    ensures
        c == crc32_of(data@),
{
    let mut reg: u32 = 0xFFFF_FFFF;
    let mut i: usize = 0;
    while i < data.len()
        invariant
            i <= data.len(),
            reg == crc_register(data@.subrange(0, i as int)),
        decreases data.len() - i,
    {
        let ghost before = reg;
        let mut r: u32 = reg ^ (data[i] as u32);
        let mut k: usize = 0;
        while k < 8
            invariant
                k <= 8,
                crc_shifts(r, (8 - k) as nat) == crc_feed(before, data@[i as int]),
            decreases 8 - k,
        {
            let next: u32 = if r & 1 == 1 {
                (r >> 1) ^ CRC32_POLY
            } else {
                r >> 1
            };
            assert(crc_shifts(r, (8 - k) as nat) == crc_shifts(next, (8 - k - 1) as nat));
            r = next;
            k = k + 1;
        }
        reg = r;
        assert(data@.subrange(0, i + 1).drop_last() =~= data@.subrange(0, i as int));
        i = i + 1;
    }
    assert(data@.subrange(0, data@.len() as int) =~= data@);
    reg ^ 0xFFFF_FFFF
}

// ---------------------------------------------------------------------------
// What the checksum guarantees
// ---------------------------------------------------------------------------

proof fn lemma_shift_xor(a: u32, b: u32)
    ensures
        crc_shift(a ^ b) == crc_shift(a) ^ crc_shift(b),
{
    assert((if (a ^ b) & 1 == 1 {
        ((a ^ b) >> 1) ^ 0xEDB8_8320u32
    } else {
        (a ^ b) >> 1
    }) == (if a & 1 == 1 {
        (a >> 1) ^ 0xEDB8_8320u32
    } else {
        a >> 1
    }) ^ (if b & 1 == 1 {
        (b >> 1) ^ 0xEDB8_8320u32
    } else {
        b >> 1
    })) by (bit_vector);
}

proof fn lemma_shift_injective(a: u32, b: u32)
    ensures
        a != b ==> crc_shift(a) != crc_shift(b),
{
    lemma_shift_xor(a, b);
    let x = a ^ b;
    assert(x != 0 ==> (if x & 1 == 1 {
        (x >> 1) ^ 0xEDB8_8320u32
    } else {
        x >> 1
    }) != 0) by (bit_vector);
    assert(a != b ==> x != 0) by (bit_vector)
        requires
            x == a ^ b,
    ;
    assert(crc_shift(a) ^ crc_shift(b) != 0 ==> crc_shift(a) != crc_shift(b)) by (bit_vector);
}

proof fn lemma_shifts_xor(a: u32, b: u32, k: nat)
    ensures
        crc_shifts(a ^ b, k) == crc_shifts(a, k) ^ crc_shifts(b, k),
    decreases k,
{
    if k > 0 {
        lemma_shift_xor(a, b);
        lemma_shifts_xor(crc_shift(a), crc_shift(b), (k - 1) as nat);
    }
}

proof fn lemma_shifts_injective(a: u32, b: u32, k: nat)
    ensures
        a != b ==> crc_shifts(a, k) != crc_shifts(b, k),
    decreases k,
{
    if k > 0 {
        lemma_shift_injective(a, b);
        lemma_shifts_injective(crc_shift(a), crc_shift(b), (k - 1) as nat);
    }
}

proof fn lemma_feed_injective(c1: u32, c2: u32, b1: u8, b2: u8)
    ensures
        (c1 != c2 && b1 == b2) || (c1 == c2 && b1 != b2) ==> crc_feed(c1, b1) != crc_feed(c2, b2),
{
    let x1 = c1 ^ (b1 as u32);
    let x2 = c2 ^ (b2 as u32);
    assert((c1 != c2 && b1 == b2) || (c1 == c2 && b1 != b2) ==> x1 != x2) by (bit_vector)
        requires
            x1 == c1 ^ (b1 as u32),
            x2 == c2 ^ (b2 as u32),
    ;
    lemma_shifts_injective(x1, x2, 8);
}

proof fn lemma_register_step(data: Seq<u8>, m: int)
    requires
        0 <= m < data.len(),
    ensures
        crc_register(data.take(m + 1)) == crc_feed(crc_register(data.take(m)), data[m]),
{
    assert(data.take(m + 1).drop_last() =~= data.take(m));
}

proof fn lemma_registers_stay_apart(d1: Seq<u8>, d2: Seq<u8>, m: nat)
    requires
        d1.len() == d2.len(),
        m <= d1.len(),
        crc_register(d1.take(m as int)) != crc_register(d2.take(m as int)),
        forall|j: int| m <= j < d1.len() ==> d1[j] == d2[j],
    ensures
        crc_register(d1) != crc_register(d2),
    decreases d1.len() - m,
{
    if m == d1.len() {
        assert(d1.take(m as int) =~= d1);
        assert(d2.take(m as int) =~= d2);
    } else {
        lemma_register_step(d1, m as int);
        lemma_register_step(d2, m as int);
        lemma_feed_injective(
            crc_register(d1.take(m as int)),
            crc_register(d2.take(m as int)),
            d1[m as int],
            d2[m as int],
        );
        lemma_registers_stay_apart(d1, d2, m + 1);
    }
}

/// The checksum catches any corruption of a single byte: two images of the
/// same length that differ in exactly one byte, whatever the byte and
/// whatever the change, have different CRC-32s. (So every bit of every byte,
/// the top bit included, goes into the checksum.)
pub proof fn lemma_crc_detects_byte_change(d1: Seq<u8>, d2: Seq<u8>, k: int)
    requires
        d1.len() == d2.len(),
        0 <= k < d1.len(),
        d1[k] != d2[k],
        forall|j: int| 0 <= j < d1.len() && j != k ==> d1[j] == d2[j],
    ensures
        crc32_of(d1) != crc32_of(d2),
{
    assert(d1.take(k) =~= d2.take(k));
    lemma_register_step(d1, k);
    lemma_register_step(d2, k);
    lemma_feed_injective(crc_register(d1.take(k)), crc_register(d2.take(k)), d1[k], d2[k]);
    lemma_registers_stay_apart(d1, d2, (k + 1) as nat);
    let r1 = crc_register(d1);
    let r2 = crc_register(d2);
    assert(r1 != r2 ==> r1 ^ 0xFFFF_FFFFu32 != r2 ^ 0xFFFF_FFFFu32) by (bit_vector);
}

/// The CRC-32 table entry of a byte value `x`, built from the published
/// entries of the eight single-bit bytes 0x01, 0x02, ..., 0x80 (the table is
/// XOR-linear in `x`).
pub open spec fn crc_table(x: u32) -> u32 {
    (if x & 0x01 != 0 { 0x7707_3096u32 } else { 0u32 })
    ^ (if x & 0x02 != 0 { 0xEE0E_612Cu32 } else { 0u32 })
    ^ (if x & 0x04 != 0 { 0x076D_C419u32 } else { 0u32 })
    ^ (if x & 0x08 != 0 { 0x0EDB_8832u32 } else { 0u32 })
    ^ (if x & 0x10 != 0 { 0x1DB7_1064u32 } else { 0u32 })
    ^ (if x & 0x20 != 0 { 0x3B6E_20C8u32 } else { 0u32 })
    ^ (if x & 0x40 != 0 { 0x76DC_4190u32 } else { 0u32 })
    ^ (if x & 0x80 != 0 { 0xEDB8_8320u32 } else { 0u32 })
}

/// The checksum follows the table-driven CRC-32: it starts from all ones,
/// each byte `b` turns the register `r` into
/// `(r >> 8) ^ crc_table((r ^ b) & 0xFF)`, and the result is the complement
/// of the last register.
pub proof fn lemma_crc_table_driven(data: Seq<u8>, b: u8)
    ensures
        crc_register(Seq::empty()) == 0xFFFF_FFFFu32,
        crc_register(data.push(b)) == (crc_register(data) >> 8) ^ crc_table(
            (crc_register(data) ^ (b as u32)) & 0xFF,
        ),
        crc32_of(data) == crc_register(data) ^ 0xFFFF_FFFFu32,
{
    let r = crc_register(data);
    assert(data.push(b).drop_last() =~= data);
    assert(crc_register(data.push(b)) == crc_shifts(r ^ (b as u32), 8));
    let y = r ^ (b as u32);
    assert(crc_shifts(y, 8) == crc_shift(
        crc_shift(crc_shift(crc_shift(crc_shift(crc_shift(crc_shift(crc_shift(y))))))),
    )) by {
        reveal_with_fuel(crc_shifts, 9);
    }
    assert(crc_shift(
        crc_shift(crc_shift(crc_shift(crc_shift(crc_shift(crc_shift(crc_shift(y))))))),
    ) == (r >> 8) ^ crc_table(y & 0xFF)) by (bit_vector)
        requires
            y == r ^ (b as u32),
    ;
}

} // verus!
