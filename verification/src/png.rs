//! Reading a PNG's pixel size from its header, without decoding the image.

use vstd::prelude::*;

verus! {

/// The eight bytes every PNG file starts with.
pub open spec fn png_signature() -> Seq<u8> {
    seq![0x89u8, 0x50u8, 0x4Eu8, 0x47u8, 0x0Du8, 0x0Au8, 0x1Au8, 0x0Au8]
}

/// The big-endian 32-bit number stored at `b[at..at + 4]`.
pub open spec fn be_u32(b: Seq<u8>, at: int) -> int {
    b[at] * 0x1000000 + b[at + 1] * 0x10000 + b[at + 2] * 0x100 + b[at + 3]
}

/// Width and height from the IHDR chunk, which sits right after the
/// signature: width at bytes 16..20, height at 20..24. `None` unless the
/// data is at least 24 bytes long and starts with the PNG signature.
pub open spec fn png_size(b: Seq<u8>) -> Option<(u32, u32)> {
    if b.len() >= 24 && b.take(8) == png_signature() {
        Some((be_u32(b, 16) as u32, be_u32(b, 20) as u32))
    } else {
        None
    }
}

fn read_be_u32(b: &[u8], at: usize) -> (v: u32)
    requires
        at + 4 <= b.len(),
    ensures
        v == be_u32(b@, at as int),
{
    (b[at] as u32) * 0x1000000 + (b[at + 1] as u32) * 0x10000 + (b[at + 2] as u32) * 0x100 + (
    b[at + 3] as u32)
}

/// Width and height of a PNG image, read from its IHDR header.
pub fn png_dimensions(bytes: &[u8]) -> (r: Option<(u32, u32)>)
    ensures
        r == png_size(bytes@),
{
    if bytes.len() < 24 {
        return None;
    }
    let sig: [u8; 8] = [0x89, 0x50, 0x4E, 0x47, 0x0D, 0x0A, 0x1A, 0x0A];
    let mut i: usize = 0;
    while i < 8
        invariant
            i <= 8,
            bytes.len() >= 24,
            sig@ == png_signature(),
            forall|j: int| 0 <= j < i ==> bytes@[j] == png_signature()[j],
        decreases 8 - i,
    {
        if bytes[i] != sig[i] {
            proof {
                assert(bytes@.take(8)[i as int] != png_signature()[i as int]);
            }
            return None;
        }
        i = i + 1;
    }
    proof {
        assert(bytes@.take(8) =~= png_signature());
    }
    let w = read_be_u32(bytes, 16);
    let h = read_be_u32(bytes, 20);
    Some((w, h))
}

} // verus!
