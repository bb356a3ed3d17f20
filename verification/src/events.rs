//! Structural events handed to the reporting layer.
//!
//! The walker emits one `BoxInfo` per accepted box with a nonzero size, and
//! one table event per successfully decoded typed payload. Rendering the
//! events (indentation, summarising long arrays) is the caller's business.

use vstd::prelude::*;
use crate::boxes::BoxHeader;

verus! {

/// One structural fact about the stream, in the order the walk found them.
#[derive(Debug)]
pub enum Event {
    /// An accepted box with a nonzero declared size.
    BoxInfo { header: BoxHeader, depth: u64 },
    /// A decoded sync-sample table: version, flags (three bytes, as one
    /// value), the declared entry count, and the sample numbers.
    SyncSampleTable { depth: u64, version: u8, flags: u32, count: u32, entries: Vec<u32> },
    /// A decoded chunk-offset table.
    ChunkOffsetTable { depth: u64, version: u8, flags: u32, count: u32, entries: Vec<u32> },
    /// A decoded sample-size table. When `uniform_size` is nonzero, every
    /// sample shares that size and `entries` is empty.
    SampleSizeTable {
        depth: u64,
        version: u8,
        flags: u32,
        uniform_size: u32,
        count: u32,
        entries: Vec<u32>,
    },
}

/// The mathematical image of an `Event`: entry arrays become sequences.
pub enum EventS {
    BoxInfo { header: BoxHeader, depth: u64 },
    SyncSampleTable { depth: u64, version: u8, flags: u32, count: u32, entries: Seq<u32> },
    ChunkOffsetTable { depth: u64, version: u8, flags: u32, count: u32, entries: Seq<u32> },
    SampleSizeTable {
        depth: u64,
        version: u8,
        flags: u32,
        uniform_size: u32,
        count: u32,
        entries: Seq<u32>,
    },
}

impl View for Event {
    type V = EventS;

    open spec fn view(&self) -> EventS {
        match self {
            Event::BoxInfo { header, depth } => EventS::BoxInfo { header: *header, depth: *depth },
            Event::SyncSampleTable { depth, version, flags, count, entries } => {
                EventS::SyncSampleTable {
                    depth: *depth,
                    version: *version,
                    flags: *flags,
                    count: *count,
                    entries: entries@,
                }
            },
            Event::ChunkOffsetTable { depth, version, flags, count, entries } => {
                EventS::ChunkOffsetTable {
                    depth: *depth,
                    version: *version,
                    flags: *flags,
                    count: *count,
                    entries: entries@,
                }
            },
            Event::SampleSizeTable { depth, version, flags, uniform_size, count, entries } => {
                EventS::SampleSizeTable {
                    depth: *depth,
                    version: *version,
                    flags: *flags,
                    uniform_size: *uniform_size,
                    count: *count,
                    entries: entries@,
                }
            },
        }
    }
}

/// The views of a sequence of events.
pub open spec fn event_views(s: Seq<Event>) -> Seq<EventS> {
    s.map_values(|e: Event| e@)
}

/// How many of the events report a box (rather than a decoded table).
pub open spec fn box_event_count(s: Seq<EventS>) -> int
    decreases s.len(),
{
    if s.len() == 0 {
        0
    } else {
        box_event_count(s.drop_last()) + if s.last() is BoxInfo {
            1int
        } else {
            0int
        }
    }
}

/// Counting box events distributes over concatenation.
pub proof fn lemma_box_event_count_add(a: Seq<EventS>, b: Seq<EventS>)
    ensures
        box_event_count(a + b) == box_event_count(a) + box_event_count(b),
    decreases b.len(),
{
    if b.len() == 0 {
        assert(a + b =~= a);
    } else {
        lemma_box_event_count_add(a, b.drop_last());
        assert((a + b).drop_last() =~= a + b.drop_last());
        assert((a + b).last() == b.last());
    }
}

} // verus!
