//! Choosing the serial port of the Pi among the ports the system lists: the
//! one to use is a USB serial device, recognised by `tty.usb` in its name.

use vstd::prelude::*;
use vstd::utf8::encode_utf8;

verus! {

/// The bytes of `tty.usb`.
pub open spec fn usb_tty_marker() -> Seq<u8> {
    seq![0x74u8, 0x74u8, 0x79u8, 0x2eu8, 0x75u8, 0x73u8, 0x62u8]
}

/// Whether `pat` occurs in `hay` starting at byte `i`.
pub open spec fn occurs_at(hay: Seq<u8>, pat: Seq<u8>, i: int) -> bool {
    0 <= i && i + pat.len() <= hay.len() && hay.subrange(i, i + pat.len()) == pat
}

/// Whether a port name, as UTF-8 bytes, names a USB serial device.
pub open spec fn is_usb_tty(name: Seq<u8>) -> bool {
    exists|i: int| occurs_at(name, usb_tty_marker(), i)
}

/// Whether the port name `name` holds `tty.usb`.
pub fn names_usb_tty(name: &str) -> (b: bool)
    ensures
        b == is_usb_tty(encode_utf8(name@)),
{
    let bytes = name.as_bytes();
    let pat: [u8; 7] = [0x74u8, 0x74u8, 0x79u8, 0x2eu8, 0x75u8, 0x73u8, 0x62u8];
    assert(pat@ =~= usb_tty_marker());
    let ghost hay = bytes@;
    assert(hay == encode_utf8(name@));
    if bytes.len() < 7 {
        assert forall|i: int| !occurs_at(hay, usb_tty_marker(), i) by {}
        return false;
    }
    let last = bytes.len() - 7;
    let mut i: usize = 0;
    while i <= last
        invariant
            i <= last + 1,
            hay == bytes@,
            hay == encode_utf8(name@),
            last + 7 == hay.len(),
            hay.len() <= usize::MAX,
            pat@ == usb_tty_marker(),
            forall|j: int| 0 <= j < i ==> !occurs_at(hay, usb_tty_marker(), j),
        decreases last + 1 - i,
    {
        let mut k: usize = 0;
        let mut same = true;
        while k < 7
            invariant
                i <= last,
                k <= 7,
                hay.len() <= usize::MAX,
                hay == bytes@,
                last + 7 == hay.len(),
                pat@ == usb_tty_marker(),
                same == (forall|m: int| 0 <= m < k ==> hay[i + m] == pat@[m]),
            decreases 7 - k,
        {
            if bytes[i + k] != pat[k] {
                same = false;
            }
            k = k + 1;
        }
        if same {
            assert(hay.subrange(i as int, i + 7) =~= usb_tty_marker());
            assert(occurs_at(hay, usb_tty_marker(), i as int));
            return true;
        }
        assert(!occurs_at(hay, usb_tty_marker(), i as int)) by {
            if occurs_at(hay, usb_tty_marker(), i as int) {
                assert forall|m: int| 0 <= m < 7 implies hay[i + m] == pat@[m] by {
                    assert(hay.subrange(i as int, i + 7)[m] == hay[i + m]);
                }
            }
        }
        i = i + 1;
    }
    false
}

/// The first port whose name holds `tty.usb`, if any.
pub fn find_usb_port(names: &Vec<String>) -> (r: Option<usize>)
    ensures
        match r {
            Some(i) => {
                &&& i < names@.len()
                &&& is_usb_tty(encode_utf8(names@[i as int]@))
                &&& forall|j: int| 0 <= j < i ==> !is_usb_tty(encode_utf8(names@[j]@))
            },
            None => forall|j: int| 0 <= j < names@.len() ==> !is_usb_tty(encode_utf8(names@[j]@)),
        },
{
    let mut i: usize = 0;
    while i < names.len()
        invariant
            i <= names@.len(),
            forall|j: int| 0 <= j < i ==> !is_usb_tty(encode_utf8(names@[j]@)),
        decreases names@.len() - i,
    {
        if names_usb_tty(names[i].as_str()) {
            return Some(i);
        }
        i = i + 1;
    }
    None
}

/// The positions of all ports whose name holds `tty.usb`, in list order:
/// the candidates to try one after the other.
pub fn usb_port_candidates(names: &Vec<String>) -> (r: Vec<usize>)
    ensures
        forall|k: int|
            0 <= k < r@.len() ==> r@[k] < names@.len() && is_usb_tty(encode_utf8(names@[r@[k] as int]@)),
        forall|k1: int, k2: int| 0 <= k1 < k2 < r@.len() ==> r@[k1] < r@[k2],
        forall|j: int|
            0 <= j < names@.len() && is_usb_tty(encode_utf8(names@[j]@)) ==> r@.contains(j as usize),
{
    let mut r: Vec<usize> = Vec::new();
    let mut i: usize = 0;
    while i < names.len()
        invariant
            i <= names@.len(),
            forall|k: int|
                0 <= k < r@.len() ==> r@[k] < i && is_usb_tty(encode_utf8(names@[r@[k] as int]@)),
            forall|k1: int, k2: int| 0 <= k1 < k2 < r@.len() ==> r@[k1] < r@[k2],
            forall|j: int|
                0 <= j < i && is_usb_tty(encode_utf8(names@[j]@)) ==> r@.contains(j as usize),
        decreases names@.len() - i,
    {
        let ghost r0 = r@;
        let found = names_usb_tty(names[i].as_str());
        if found {
            r.push(i);
            assert(r@[r@.len() - 1] == i);
        }
        assert forall|j: int|
            0 <= j < i + 1 && is_usb_tty(encode_utf8(names@[j]@)) implies r@.contains(j as usize) by {
            if j < i {
                let k = choose|k: int| 0 <= k < r0.len() && r0[k] == j as usize;
                assert(r@[k] == r0[k]);
            } else {
                assert(r@[r@.len() - 1] == j as usize);
            }
        }
        i = i + 1;
    }
    r
}

/// A port name (as bytes) counts as a USB serial device exactly when it is
/// some text, then `tty.usb`, then some text: any prefix, any suffix, any
/// length.
pub proof fn lemma_usb_tty_is_containment(name: Seq<u8>)
    ensures
        is_usb_tty(name) <==> exists|prefix: Seq<u8>, suffix: Seq<u8>|
            name == prefix + seq![0x74u8, 0x74u8, 0x79u8, 0x2eu8, 0x75u8, 0x73u8, 0x62u8] + suffix,
{
    let marker = seq![0x74u8, 0x74u8, 0x79u8, 0x2eu8, 0x75u8, 0x73u8, 0x62u8];
    assert(usb_tty_marker() =~= marker);
    if is_usb_tty(name) {
        let i = choose|i: int| occurs_at(name, usb_tty_marker(), i);
        let prefix = name.take(i);
        let suffix = name.skip(i + 7);
        assert(name =~= prefix + marker + suffix);
    }
    if exists|prefix: Seq<u8>, suffix: Seq<u8>| name == prefix + marker + suffix {
        let (prefix, suffix) = choose|prefix: Seq<u8>, suffix: Seq<u8>|
            name == prefix + marker + suffix;
        let i = prefix.len() as int;
        assert(name.subrange(i, i + 7) =~= marker);
        assert(occurs_at(name, usb_tty_marker(), i));
    }
}

/// Whatever comes before and after it, a name that holds `tty.usb` is found.
pub proof fn lemma_usb_tty_anywhere(prefix: Seq<u8>, suffix: Seq<u8>)
    ensures
        is_usb_tty(prefix + seq![0x74u8, 0x74u8, 0x79u8, 0x2eu8, 0x75u8, 0x73u8, 0x62u8] + suffix),
{
    let marker = seq![0x74u8, 0x74u8, 0x79u8, 0x2eu8, 0x75u8, 0x73u8, 0x62u8];
    lemma_usb_tty_is_containment(prefix + marker + suffix);
}

} // verus!
