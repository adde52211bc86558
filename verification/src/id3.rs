//! ID3v2 tag framing: how many bytes a leading tag occupies.

use vstd::prelude::*;

verus! {

/// A synchsafe size byte uses only its low 7 bits.
pub open spec fn synchsafe(b: u8) -> bool {
    b < 0x80
}

/// The tag length a valid 10-byte ID3v2 header declares: the header itself,
/// the synchsafe body size, and a 10-byte footer when flag bit 4 is set.
pub open spec fn declared_len(h: Seq<u8>) -> int {
    10 + h[6] * 0x20_0000 + h[7] * 0x4000 + h[8] * 0x80 + h[9] + if h[5] & 0x10 != 0 {
        10int
    } else {
        0int
    }
}

/// Whether `h` starts with a well-formed ID3v2 header: the `ID3` magic,
/// version bytes that are not `0xFF`, and four synchsafe size bytes.
pub open spec fn is_id3v2_header(h: Seq<u8>) -> bool {
    &&& h.len() >= 10
    &&& h[0] == 0x49 && h[1] == 0x44 && h[2] == 0x33
    &&& h[3] != 0xFF && h[4] != 0xFF
    &&& synchsafe(h[6]) && synchsafe(h[7]) && synchsafe(h[8]) && synchsafe(h[9])
}

/// Total length of a leading ID3v2 tag, or `None` when `header` does not begin
/// with a well-formed tag header.
pub fn id3v2_tag_len(header: &[u8]) -> (r: Option<u64>)
    ensures
        r is Some <==> is_id3v2_header(header@),
        r matches Some(n) ==> n == declared_len(header@),
{
    if header.len() < 10 || header[0] != 0x49 || header[1] != 0x44 || header[2] != 0x33 {
        return None;
    }
    if header[3] == 0xFF || header[4] == 0xFF {
        return None;
    }
    if header[6] >= 0x80 || header[7] >= 0x80 || header[8] >= 0x80 || header[9] >= 0x80 {
        return None;
    }
    let body: u64 = (header[6] as u64) * 0x20_0000 + (header[7] as u64) * 0x4000 + (header[8] as u64)
        * 0x80 + (header[9] as u64);
    let footer: u64 = if header[5] & 0x10 != 0 {
        10
    } else {
        0
    };
    Some(10 + body + footer)
}

/// Setting the footer flag (bit 4 of the flags byte) of a valid header
/// keeps it valid and adds exactly the 10-byte footer to the tag length.
pub proof fn lemma_footer_adds_ten(h: Seq<u8>)
    requires
        is_id3v2_header(h),
        h[5] & 0x10 == 0,
    ensures
        is_id3v2_header(h.update(5, h[5] | 0x10)),
        declared_len(h.update(5, h[5] | 0x10)) == declared_len(h) + 10,
{
    let f = h[5];
    assert((f | 0x10) & 0x10 != 0) by (bit_vector);
    let g = h.update(5, f | 0x10);
    assert(g[0] == h[0] && g[1] == h[1] && g[2] == h[2] && g[3] == h[3] && g[4] == h[4]);
    assert(g[6] == h[6] && g[7] == h[7] && g[8] == h[8] && g[9] == h[9]);
}

} // verus!
