//! Box headers and the box classifier.
//!
//! Every record ("box") opens with an 8-byte header: a big-endian 32-bit
//! total size (header included) and a 4-byte type tag. The tag is carried
//! as the 32-bit big-endian value of its four bytes. A declared size of
//! zero is a sentinel for "header only, no declared extent".

use vstd::prelude::*;
use crate::cursor::ByteCursor;
use crate::cursor::ParseError;
use crate::cursor::be32;

verus! {

// Type tags, as the big-endian 32-bit value of their four ASCII bytes.
pub const TAG_MOOV: u32 = 0x6D6F6F76;
pub const TAG_ILST: u32 = 0x696C7374;
pub const TAG_TRAK: u32 = 0x7472616B;
pub const TAG_META: u32 = 0x6D657461;
pub const TAG_UDTA: u32 = 0x75647461;
pub const TAG_STSD: u32 = 0x73747364;
pub const TAG_DREF: u32 = 0x64726566;
pub const TAG_EDTS: u32 = 0x65647473;
pub const TAG_MDIA: u32 = 0x6D646961;
pub const TAG_MINF: u32 = 0x6D696E66;
pub const TAG_GMHD: u32 = 0x676D6864;
pub const TAG_DINF: u32 = 0x64696E66;
/// The comment tag: 0xA9 (the copyright sign) followed by `cmt`.
pub const TAG_CMT: u32 = 0xA9636D74;
pub const TAG_STBL: u32 = 0x7374626C;
pub const TAG_AVC1: u32 = 0x61766331;
pub const TAG_MVEX: u32 = 0x6D766578;
pub const TAG_IODS: u32 = 0x696F6473;
pub const TAG_MOOF: u32 = 0x6D6F6F66;
pub const TAG_TRAF: u32 = 0x74726166;
pub const TAG_MFRA: u32 = 0x6D667261;
pub const TAG_SKIP: u32 = 0x736B6970;
pub const TAG_STRK: u32 = 0x7374726B;
pub const TAG_IPRO: u32 = 0x6970726F;
pub const TAG_FIIN: u32 = 0x6669696E;
pub const TAG_PAEN: u32 = 0x7061656E;
pub const TAG_MECO: u32 = 0x6D65636F;
pub const TAG_MERE: u32 = 0x6D657265;
pub const TAG_STSS: u32 = 0x73747373;
pub const TAG_STCO: u32 = 0x7374636F;
pub const TAG_STSZ: u32 = 0x7374737A;

/// The framing of one box: its declared size, type tag, and the absolute
/// offsets where it starts and ends.
#[derive(Clone, Copy, Debug, PartialEq, Eq, Structural)]
pub struct BoxHeader {
    /// Declared total length of the box, its 8-byte header included.
    /// Zero is the "header only" sentinel.
    pub size: u32,
    /// The 4-byte type tag, as a big-endian 32-bit value.
    pub box_type: u32,
    /// Absolute offset of the first header byte.
    pub start: u64,
    /// Absolute exclusive end offset: `start + size`, or `start + 8` when
    /// the size is the zero sentinel.
    pub end: u64,
}

/// Whether a tag belongs to the fixed set of container types whose payload
/// is a sequence of sub-boxes.
pub open spec fn is_container_tag(tag: u32) -> bool {
    ||| tag == TAG_MOOV
    ||| tag == TAG_ILST
    ||| tag == TAG_TRAK
    ||| tag == TAG_META
    ||| tag == TAG_UDTA
    ||| tag == TAG_STSD
    ||| tag == TAG_DREF
    ||| tag == TAG_EDTS
    ||| tag == TAG_MDIA
    ||| tag == TAG_MINF
    ||| tag == TAG_GMHD
    ||| tag == TAG_DINF
    ||| tag == TAG_CMT
    ||| tag == TAG_STBL
    ||| tag == TAG_AVC1
    ||| tag == TAG_MVEX
    ||| tag == TAG_IODS
    ||| tag == TAG_MOOF
    ||| tag == TAG_TRAF
    ||| tag == TAG_MFRA
    ||| tag == TAG_SKIP
    ||| tag == TAG_STRK
    ||| tag == TAG_IPRO
    ||| tag == TAG_FIIN
    ||| tag == TAG_PAEN
    ||| tag == TAG_MECO
    ||| tag == TAG_MERE
}

/// The fixed number of payload bytes a tag declares before its sub-box
/// sequence begins: 78 for the video sample entry (an 86-byte structure
/// minus the 8-byte header already consumed), 4 for the metadata tag
/// (a version/flags word), and 0 for every other tag.
pub open spec fn skip_bytes_for(tag: u32) -> u64 {
    if tag == TAG_AVC1 {
        78
    } else if tag == TAG_META {
        4
    } else {
        0
    }
}

/// The header whose eight bytes lie at offset `pos` of `d`. Meaningful when
/// `pos + 8 <= d.len()`.
pub open spec fn header_at(d: Seq<u8>, pos: int) -> BoxHeader {
    let size = be32(d, pos);
    let tag = be32(d, pos + 4);
    BoxHeader {
        size: size as u32,
        box_type: tag as u32,
        start: pos as u64,
        end: if size == 0 {
            (pos + 8) as u64
        } else {
            (pos + size) as u64
        },
    }
}

impl BoxHeader {
    /// Whether this box is a container type that may hold sub-boxes.
    pub fn is_container(&self) -> (r: bool)
        ensures
            r == is_container_tag(self.box_type),
    {
        let t = self.box_type;
        t == TAG_MOOV || t == TAG_ILST || t == TAG_TRAK || t == TAG_META || t == TAG_UDTA
            || t == TAG_STSD || t == TAG_DREF || t == TAG_EDTS || t == TAG_MDIA || t == TAG_MINF
            || t == TAG_GMHD || t == TAG_DINF || t == TAG_CMT || t == TAG_STBL || t == TAG_AVC1
            || t == TAG_MVEX || t == TAG_IODS || t == TAG_MOOF || t == TAG_TRAF || t == TAG_MFRA
            || t == TAG_SKIP || t == TAG_STRK || t == TAG_IPRO || t == TAG_FIIN || t == TAG_PAEN
            || t == TAG_MECO || t == TAG_MERE
    }

    /// The number of bytes to skip past the header before this box's
    /// content (for the two tags with a fixed prefix), else zero.
    pub fn get_skip_bytes(&self) -> (r: u64)
        ensures
            r == skip_bytes_for(self.box_type),
    {
        if self.box_type == TAG_AVC1 {
            86 - 8
        } else if self.box_type == TAG_META {
            4
        } else {
            0
        }
    }
}

/// Read one 8-byte box header at the current position: big-endian 32-bit
/// size, then the 4-byte type tag. On success the cursor rests exactly
/// eight bytes past where the header began; on failure (fewer than eight
/// bytes before the end of the stream) the stream is unchanged and the
/// cursor sits at or just past where the size field was read.
pub fn read_box_header(cursor: &mut ByteCursor) -> (r: Result<BoxHeader, ParseError>)
    ensures
        final(cursor).bytes() == old(cursor).bytes(),
        r is Ok <==> old(cursor).position_spec() + 8 <= old(cursor).bytes().len(),
        r matches Ok(h) ==> {
            &&& h == header_at(old(cursor).bytes(), old(cursor).position_spec() as int)
            &&& final(cursor).position_spec() == old(cursor).position_spec() + 8
        },
        r is Err ==> final(cursor).position_spec() == if old(cursor).position_spec() + 4 <= old(
            cursor,
        ).bytes().len() {
            old(cursor).position_spec() + 4
        } else {
            old(cursor).position_spec() as int
        },
{
    let start = cursor.position();
    let size = match cursor.read_u32_be() {
        Ok(v) => v,
        Err(e) => {
            return Err(e);
        },
    };
    let box_type = match cursor.read_u32_be() {
        Ok(v) => v,
        Err(e) => {
            return Err(e);
        },
    };
    let end = if size == 0 {
        start + 8
    } else {
        start + size as u64
    };
    Ok(BoxHeader { size, box_type, start, end })
}

} // verus!
