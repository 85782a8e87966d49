//! The binary-format footer records appended to a loaded process's flash
//! after its code-integrity region.
//!
//! Footers are TLV records: a 16-bit little-endian type, a 16-bit
//! little-endian length, then `length` bytes of payload. A credentials
//! footer (type [`FOOTER_TLV_CREDENTIALS`]) carries a 32-bit little-endian
//! credentials format word followed by the credential bytes, a cryptographic
//! claim over the process's integrity region.

use vstd::prelude::*;

verus! {

/// TLV type number of a credentials footer record.
pub const FOOTER_TLV_CREDENTIALS: u16 = 128;

/// Why a footer failed to parse.
#[derive(Clone, Copy, Debug, PartialEq, Eq, Structural)]
pub enum TbfParseError {
    /// The remaining footer region is too short to hold a record.
    NotEnoughFlash,
    /// A TLV entry was malformed; carries the offending TLV type number.
    BadTlvEntry(usize),
}

/// A parsed credentials footer: the credentials format word and the
/// credential payload bytes.
#[derive(Clone, Debug)]
pub struct TbfFooterV2Credentials {
    /// The 32-bit credentials format identifier.
    pub format: u32,
    /// The credential bytes following the format word.
    pub data: Vec<u8>,
}

/// The 16-bit little-endian integer at offset `i` of `s`.
pub open spec fn u16_le(s: Seq<u8>, i: int) -> int {
    s[i] + 0x100 * s[i + 1]
}

/// The 32-bit little-endian integer at offset `i` of `s`.
pub open spec fn u32_le(s: Seq<u8>, i: int) -> int {
    s[i] + 0x100 * s[i + 1] + 0x1_0000 * s[i + 2] + 0x100_0000 * s[i + 3]
}

/// Where the payload of a record starting at offset 0 of a region of
/// `region_len` bytes ends, when the TLV length field says `len`: the
/// payload is cut short at the end of the region.
pub open spec fn payload_end(len: int, region_len: int) -> int {
    if 4 + len <= region_len {
        4 + len
    } else {
        region_len
    }
}

/// Parse one footer record from the start of `footers`.
///
/// Returns the parsed credentials and the record's TLV length field. The
/// length field is reported even when the payload it announces overruns the
/// region; the caller detects the overrun when it advances past the record
/// and abandons the process's footers. A region too short for the TLV
/// header or the format word is reported as `NotEnoughFlash` (the benign
/// end-of-footers condition); a non-credentials type or a length too small
/// to hold the format word is a `BadTlvEntry`.
pub fn parse_tbf_footer(footers: &[u8]) -> (r: Result<(TbfFooterV2Credentials, u32), TbfParseError>)
    ensures
        match r {
            Ok(p) => {
                let s = footers@;
                &&& s.len() >= 8
                &&& u16_le(s, 0) == FOOTER_TLV_CREDENTIALS
                &&& u16_le(s, 2) >= 4
                &&& p.1 == u16_le(s, 2)
                &&& p.0.format == u32_le(s, 4)
                &&& p.0.data@ == s.subrange(8, payload_end(u16_le(s, 2), s.len() as int))
            },
            Err(TbfParseError::NotEnoughFlash) => {
                let s = footers@;
                ||| s.len() < 4
                ||| (s.len() < 8 && u16_le(s, 0) == FOOTER_TLV_CREDENTIALS && u16_le(s, 2) >= 4)
            },
            Err(TbfParseError::BadTlvEntry(t)) => {
                let s = footers@;
                &&& s.len() >= 4
                &&& (u16_le(s, 0) != FOOTER_TLV_CREDENTIALS || u16_le(s, 2) < 4)
                &&& t == u16_le(s, 0)
            },
        },
{
    if footers.len() < 4 {
        return Err(TbfParseError::NotEnoughFlash);
    }
    let tlv_type: u32 = footers[0] as u32 + footers[1] as u32 * 0x100;
    let tlv_len: u32 = footers[2] as u32 + footers[3] as u32 * 0x100;
    if tlv_type != FOOTER_TLV_CREDENTIALS as u32 || tlv_len < 4 {
        return Err(TbfParseError::BadTlvEntry(tlv_type as usize));
    }
    if footers.len() < 8 {
        return Err(TbfParseError::NotEnoughFlash);
    }
    let format: u32 = footers[4] as u32 + footers[5] as u32 * 0x100 + footers[6] as u32 * 0x1_0000
        + footers[7] as u32 * 0x100_0000;

    // The payload runs to the announced record end, cut short at the end of
    // the region.
    let announced_end: usize = 4 + tlv_len as usize;
    let end: usize = if announced_end <= footers.len() {
        announced_end
    } else {
        footers.len()
    };
    let mut data: Vec<u8> = Vec::new();
    let mut i: usize = 8;
    while i < end
        invariant
            8 <= i <= end || (i == 8 && end <= 8),
            end <= footers@.len(),
            data@ == footers@.subrange(8, if i >= 8 { i as int } else { 8 }),
        decreases end - i,
    {
        data.push(footers[i]);
        assert(data@ == footers@.subrange(8, i + 1));
        i = i + 1;
    }
    assert(data@ == footers@.subrange(8, payload_end(tlv_len as int, footers@.len() as int)));
    Ok((TbfFooterV2Credentials { format, data }, tlv_len))
}

} // verus!
