//! Typed payload decoders.
//!
//! Three leaf box kinds carry a decodable payload: the sync-sample table,
//! the chunk-offset table, and the sample-size table. Each opens with a
//! 1-byte version and 3 bytes of flags; the sample-size table then has a
//! 4-byte uniform sample size; each ends with a 4-byte big-endian entry
//! count followed by that many 4-byte big-endian entries — except that a
//! nonzero uniform sample size means every sample shares it and the entry
//! array is absent. A decoder consumes exactly its declared byte range, so
//! the parent traversal stays aligned; a truncated payload is a fatal error.

use vstd::prelude::*;
use crate::cursor::ByteCursor;
use crate::cursor::ParseError;
use crate::cursor::be32;
use crate::events::Event;
use crate::events::EventS;
use crate::events::event_views;

verus! {

/// The value of the 24-bit big-endian integer at offset `i` of `d`.
pub open spec fn be24(d: Seq<u8>, i: int) -> int {
    (d[i] as int) * 0x1_0000 + (d[i + 1] as int) * 0x100 + (d[i + 2] as int)
}

/// The `n` 32-bit big-endian entries starting at offset `p` of `d`.
pub open spec fn table_entries(d: Seq<u8>, p: int, n: int) -> Seq<u32> {
    Seq::new(n as nat, |i: int| be32(d, p + 4 * i) as u32)
}

/// Whether a version/flags + count-prefixed table starting at `p` lies
/// entirely inside the stream.
pub open spec fn full_table_ok(d: Seq<u8>, p: int) -> bool {
    p + 8 + 4 * be32(d, p + 4) <= d.len()
}

/// The offset one byte past such a table's last entry.
pub open spec fn full_table_end(d: Seq<u8>, p: int) -> int {
    p + 8 + 4 * be32(d, p + 4)
}

/// The event a sync-sample payload at `p` decodes to.
pub open spec fn sync_sample_event(d: Seq<u8>, p: int, depth: u64) -> EventS {
    EventS::SyncSampleTable {
        depth,
        version: d[p],
        flags: be24(d, p + 1) as u32,
        count: be32(d, p + 4) as u32,
        entries: table_entries(d, p + 8, be32(d, p + 4)),
    }
}

/// The event a chunk-offset payload at `p` decodes to.
pub open spec fn chunk_offset_event(d: Seq<u8>, p: int, depth: u64) -> EventS {
    EventS::ChunkOffsetTable {
        depth,
        version: d[p],
        flags: be24(d, p + 1) as u32,
        count: be32(d, p + 4) as u32,
        entries: table_entries(d, p + 8, be32(d, p + 4)),
    }
}

/// Whether a sample-size payload at `p` lies entirely inside the stream:
/// its 12-byte head always, and its entry array only when the uniform
/// sample size is zero.
pub open spec fn sample_size_table_ok(d: Seq<u8>, p: int) -> bool {
    &&& p + 12 <= d.len()
    &&& (be32(d, p + 4) != 0 || p + 12 + 4 * be32(d, p + 8) <= d.len())
}

/// The offset one byte past a sample-size payload.
pub open spec fn sample_size_table_end(d: Seq<u8>, p: int) -> int {
    if be32(d, p + 4) != 0 {
        p + 12
    } else {
        p + 12 + 4 * be32(d, p + 8)
    }
}

/// The event a sample-size payload at `p` decodes to.
pub open spec fn sample_size_event(d: Seq<u8>, p: int, depth: u64) -> EventS {
    EventS::SampleSizeTable {
        depth,
        version: d[p],
        flags: be24(d, p + 1) as u32,
        uniform_size: be32(d, p + 4) as u32,
        count: be32(d, p + 8) as u32,
        entries: if be32(d, p + 4) != 0 {
            Seq::empty()
        } else {
            table_entries(d, p + 12, be32(d, p + 8))
        },
    }
}

/// What decoding the leaf payload at `p` with the given tag produces: the
/// events it emits and whether it succeeds. A typed tag decodes its table;
/// every other leaf is skipped opaquely, which emits nothing and cannot
/// fail.
pub open spec fn leaf_decode(d: Seq<u8>, p: int, tag: u32, depth: u64) -> (Seq<EventS>, bool) {
    if tag == crate::boxes::TAG_STSS {
        if full_table_ok(d, p) {
            (seq![sync_sample_event(d, p, depth)], true)
        } else {
            (Seq::empty(), false)
        }
    } else if tag == crate::boxes::TAG_STCO {
        if full_table_ok(d, p) {
            (seq![chunk_offset_event(d, p, depth)], true)
        } else {
            (Seq::empty(), false)
        }
    } else if tag == crate::boxes::TAG_STSZ {
        if sample_size_table_ok(d, p) {
            (seq![sample_size_event(d, p, depth)], true)
        } else {
            (Seq::empty(), false)
        }
    } else {
        (Seq::empty(), true)
    }
}

/// Read `count` 4-byte big-endian entries. Fails, with the whole walk,
/// when the stream ends first.
#[verifier::loop_isolation(false)]
fn read_entry_array(cursor: &mut ByteCursor, count: u32) -> (r: Result<Vec<u32>, ParseError>)
    ensures
        final(cursor).bytes() == old(cursor).bytes(),
        r is Ok <==> (count == 0 || old(cursor).position_spec() + 4 * (count as int)
            <= old(cursor).bytes().len()),
        r matches Ok(v) ==> {
            &&& v@ == table_entries(old(cursor).bytes(), old(cursor).position_spec() as int,
                count as int)
            &&& final(cursor).position_spec() == old(cursor).position_spec() + 4 * (count as int)
        },
{
    let ghost d = old(cursor).bytes();
    let ghost p = old(cursor).position_spec() as int;
    let mut entries: Vec<u32> = Vec::new();
    let mut i: u32 = 0;
    while i < count
        invariant
            i <= count,
            cursor.bytes() == d,
            cursor.position_spec() as int == p + 4 * (i as int),
            entries@ == table_entries(d, p, i as int),
            i > 0 ==> p + 4 * (i as int) <= d.len(),
        decreases count - i,
    {
        let v = match cursor.read_u32_be() {
            Ok(v) => v,
            Err(e) => {
                return Err(e);
            },
        };
        entries.push(v);
        proof {
            assert(entries@ =~= table_entries(d, p, i as int + 1));
        }
        i = i + 1;
    }
    Ok(entries)
}

/// Decode a sync-sample payload at the cursor and report it. On success
/// the cursor rests exactly one byte past the table's last entry.
pub fn parse_stss(cursor: &mut ByteCursor, depth: u64, report: &mut Vec<Event>) -> (r: Result<
    (),
    ParseError,
>)
    ensures
        final(cursor).bytes() == old(cursor).bytes(),
        r is Ok <==> full_table_ok(old(cursor).bytes(), old(cursor).position_spec() as int),
        r is Ok ==> {
            &&& event_views(final(report)@) == event_views(old(report)@).push(
                sync_sample_event(old(cursor).bytes(), old(cursor).position_spec() as int, depth),
            )
            &&& final(cursor).position_spec() as int == full_table_end(
                old(cursor).bytes(),
                old(cursor).position_spec() as int,
            )
        },
        r is Err ==> final(report)@ == old(report)@,
{
    let ghost d = old(cursor).bytes();
    let ghost p = old(cursor).position_spec() as int;
    let (version, flags, count) = match read_table_head(cursor) {
        Ok(t) => t,
        Err(e) => {
            return Err(e);
        },
    };
    let entries = match read_entry_array(cursor, count) {
        Ok(v) => v,
        Err(e) => {
            return Err(e);
        },
    };
    report.push(Event::SyncSampleTable { depth, version, flags, count, entries });
    proof {
        assert(event_views(report@) =~= event_views(old(report)@).push(
            sync_sample_event(d, p, depth),
        ));
    }
    Ok(())
}

/// Decode a chunk-offset payload at the cursor and report it. On success
/// the cursor rests exactly one byte past the table's last entry.
pub fn parse_stco(cursor: &mut ByteCursor, depth: u64, report: &mut Vec<Event>) -> (r: Result<
    (),
    ParseError,
>)
    ensures
        final(cursor).bytes() == old(cursor).bytes(),
        r is Ok <==> full_table_ok(old(cursor).bytes(), old(cursor).position_spec() as int),
        r is Ok ==> {
            &&& event_views(final(report)@) == event_views(old(report)@).push(
                chunk_offset_event(old(cursor).bytes(), old(cursor).position_spec() as int, depth),
            )
            &&& final(cursor).position_spec() as int == full_table_end(
                old(cursor).bytes(),
                old(cursor).position_spec() as int,
            )
        },
        r is Err ==> final(report)@ == old(report)@,
{
    let ghost d = old(cursor).bytes();
    let ghost p = old(cursor).position_spec() as int;
    let (version, flags, count) = match read_table_head(cursor) {
        Ok(t) => t,
        Err(e) => {
            return Err(e);
        },
    };
    let entries = match read_entry_array(cursor, count) {
        Ok(v) => v,
        Err(e) => {
            return Err(e);
        },
    };
    report.push(Event::ChunkOffsetTable { depth, version, flags, count, entries });
    proof {
        assert(event_views(report@) =~= event_views(old(report)@).push(
            chunk_offset_event(d, p, depth),
        ));
    }
    Ok(())
}

/// Decode a sample-size payload at the cursor and report it. A nonzero
/// uniform sample size means the entry array is absent and is not read.
/// On success the cursor rests exactly one byte past the payload.
pub fn parse_stsz(cursor: &mut ByteCursor, depth: u64, report: &mut Vec<Event>) -> (r: Result<
    (),
    ParseError,
>)
    ensures
        final(cursor).bytes() == old(cursor).bytes(),
        r is Ok <==> sample_size_table_ok(old(cursor).bytes(), old(cursor).position_spec() as int),
        r is Ok ==> {
            &&& event_views(final(report)@) == event_views(old(report)@).push(
                sample_size_event(old(cursor).bytes(), old(cursor).position_spec() as int, depth),
            )
            &&& final(cursor).position_spec() as int == sample_size_table_end(
                old(cursor).bytes(),
                old(cursor).position_spec() as int,
            )
        },
        r is Err ==> final(report)@ == old(report)@,
{
    let ghost d = old(cursor).bytes();
    let ghost p = old(cursor).position_spec() as int;
    let (version, flags, uniform_size) = match read_table_head(cursor) {
        Ok(t) => t,
        Err(e) => {
            return Err(e);
        },
    };
    let count = match cursor.read_u32_be() {
        Ok(v) => v,
        Err(e) => {
            return Err(e);
        },
    };
    let entries: Vec<u32> = if uniform_size == 0 {
        match read_entry_array(cursor, count) {
            Ok(v) => v,
            Err(e) => {
                return Err(e);
            },
        }
    } else {
        Vec::new()
    };
    report.push(Event::SampleSizeTable { depth, version, flags, uniform_size, count, entries });
    proof {
        assert(event_views(report@) =~= event_views(old(report)@).push(
            sample_size_event(d, p, depth),
        ));
    }
    Ok(())
}

/// Read the shared head of a typed payload: the version byte, the three
/// flag bytes (packed big-endian into one value), and the following 4-byte
/// big-endian word (the entry count, or for the sample-size table its
/// uniform sample size).
fn read_table_head(cursor: &mut ByteCursor) -> (r: Result<(u8, u32, u32), ParseError>)
    ensures
        final(cursor).bytes() == old(cursor).bytes(),
        r is Ok <==> old(cursor).position_spec() + 8 <= old(cursor).bytes().len(),
        r matches Ok((version, flags, word)) ==> {
            &&& version == old(cursor).bytes()[old(cursor).position_spec() as int]
            &&& flags as int == be24(old(cursor).bytes(), old(cursor).position_spec() as int + 1)
            &&& word as int == be32(old(cursor).bytes(), old(cursor).position_spec() as int + 4)
            &&& final(cursor).position_spec() == old(cursor).position_spec() + 8
        },
{
    let version = match cursor.read_u8() {
        Ok(v) => v,
        Err(e) => {
            return Err(e);
        },
    };
    let f0 = match cursor.read_u8() {
        Ok(v) => v,
        Err(e) => {
            return Err(e);
        },
    };
    let f1 = match cursor.read_u8() {
        Ok(v) => v,
        Err(e) => {
            return Err(e);
        },
    };
    let f2 = match cursor.read_u8() {
        Ok(v) => v,
        Err(e) => {
            return Err(e);
        },
    };
    let flags = (f0 as u32) * 0x1_0000 + (f1 as u32) * 0x100 + (f2 as u32);
    let word = match cursor.read_u32_be() {
        Ok(v) => v,
        Err(e) => {
            return Err(e);
        },
    };
    Ok((version, flags, word))
}

} // verus!
