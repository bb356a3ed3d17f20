//! The box-tree walker and its mathematical model.
//!
//! `walk` is the model: a total function from the stream bytes, a starting
//! offset, an exclusive boundary and a nesting depth to everything a walk
//! produces — the emitted events, the net box count, the final cursor
//! position and whether the walk ran out of bytes. `parse_boxes` is the
//! executable walker, proved to produce exactly `walk`'s answer.
//!
//! One step of the walk, at offset `pos` below the boundary `end`:
//! - read the 8-byte header; running out of bytes is fatal;
//! - a box whose declared end overruns `end` is corruption: skip 8 bytes
//!   past the header and rescan, without reporting or counting;
//! - otherwise the box is accepted and counted, and reported unless its
//!   size is the zero sentinel;
//! - a tag with a fixed skip advances that many bytes past the header,
//!   walks sub-boxes (bounded by the box's own end) if the tag is a
//!   container, and rescans from wherever that walk stopped;
//! - a zero-size box is structurally inert: step to just past its header
//!   and take the count back;
//! - a container is walked with its own end as the boundary; a typed leaf
//!   (sync-sample, chunk-offset, sample-size) is decoded; any other leaf is
//!   skipped; then the cursor realigns at the box's declared end.

use vstd::prelude::*;
use crate::boxes::BoxHeader;
use crate::boxes::TAG_STCO;
use crate::boxes::TAG_STSS;
use crate::boxes::TAG_STSZ;
use crate::boxes::header_at;
use crate::boxes::is_container_tag;
use crate::boxes::read_box_header;
use crate::boxes::skip_bytes_for;
use crate::cursor::ByteCursor;
use crate::cursor::MAX_STREAM_LEN;
use crate::cursor::ParseError;
use crate::decode::leaf_decode;
use crate::decode::parse_stco;
use crate::decode::parse_stss;
use crate::decode::parse_stsz;
use crate::events::Event;
use crate::events::EventS;
use crate::events::box_event_count;
use crate::events::event_views;
use crate::events::lemma_box_event_count_add;

verus! {

/// Everything one walk of a byte range produces.
#[verifier::ext_equal]
pub struct WalkOut {
    /// The events, in emission order.
    pub events: Seq<EventS>,
    /// The net box count: one per accepted box, taken back again for an
    /// accepted zero-size box outside the fixed-skip path.
    pub count: int,
    /// How many accepted zero-size boxes sat on the fixed-skip path. They
    /// stay counted but emit no event, so `count` exceeds the number of
    /// box events by exactly this.
    pub silent: int,
    /// Where the cursor rests afterwards. Meaningful only when `ok`.
    pub end_pos: int,
    /// False when the walk ran out of bytes (the only fatal error).
    pub ok: bool,
}

/// A finished walk: nothing emitted, cursor at `pos`.
pub open spec fn walk_done(pos: int) -> WalkOut {
    WalkOut { events: Seq::empty(), count: 0, silent: 0, end_pos: pos, ok: true }
}

/// A walk that ran out of bytes at `pos`: nothing emitted.
pub open spec fn walk_fail(pos: int) -> WalkOut {
    WalkOut { events: Seq::empty(), count: 0, silent: 0, end_pos: pos, ok: false }
}

/// The model of one whole walk of `d` from `pos` to the boundary `end` at
/// nesting depth `depth`.
pub open spec fn walk(d: Seq<u8>, pos: int, end: int, depth: int) -> WalkOut
    decreases end - pos,
        when 0 <= pos && d.len() <= MAX_STREAM_LEN
{
    if pos >= end {
        walk_done(pos)
    } else if pos + 8 > d.len() {
        walk_fail(pos)
    } else {
        let h = header_at(d, pos);
        if h.end as int > end {
            // corruption tolerance: skip an 8-byte stride past the header
            if pos + 16 >= end {
                walk_done(pos + 16)
            } else {
                walk(d, pos + 16, end, depth)
            }
        } else {
            let ev0: Seq<EventS> = if h.size != 0 {
                seq![EventS::BoxInfo { header: h, depth: depth as u64 }]
            } else {
                Seq::empty()
            };
            let skip = skip_bytes_for(h.box_type) as int;
            if skip > 0 {
                let cpos = pos + 8 + skip;
                let child = if is_container_tag(h.box_type) && cpos < h.end as int {
                    walk(d, cpos, h.end as int, depth + 1)
                } else {
                    walk_done(cpos)
                };
                let silent0: int = if h.size == 0 {
                    1
                } else {
                    0
                };
                if !child.ok {
                    WalkOut {
                        events: ev0 + child.events,
                        count: 1 + child.count,
                        silent: silent0 + child.silent,
                        end_pos: child.end_pos,
                        ok: false,
                    }
                } else {
                    let cont = if child.end_pos > pos + 8 {
                        child.end_pos
                    } else {
                        pos + 9
                    };
                    if cont >= end {
                        WalkOut {
                            events: ev0 + child.events,
                            count: 1 + child.count,
                            silent: silent0 + child.silent,
                            end_pos: cont,
                            ok: true,
                        }
                    } else {
                        let rest = walk(d, cont, end, depth);
                        WalkOut {
                            events: ev0 + child.events + rest.events,
                            count: 1 + child.count + rest.count,
                            silent: silent0 + child.silent + rest.silent,
                            end_pos: rest.end_pos,
                            ok: rest.ok,
                        }
                    }
                }
            } else if h.size == 0 {
                // zero-size sentinel: counted, then uncounted; nothing emitted
                if pos + 8 >= end {
                    walk_done(pos + 8)
                } else {
                    walk(d, pos + 8, end, depth)
                }
            } else if is_container_tag(h.box_type) {
                let child = if pos + 8 < h.end as int {
                    walk(d, pos + 8, h.end as int, depth + 1)
                } else {
                    walk_done(pos + 8)
                };
                if !child.ok {
                    WalkOut {
                        events: ev0 + child.events,
                        count: 1 + child.count,
                        silent: child.silent,
                        end_pos: child.end_pos,
                        ok: false,
                    }
                } else if h.end as int >= end {
                    WalkOut {
                        events: ev0 + child.events,
                        count: 1 + child.count,
                        silent: child.silent,
                        end_pos: h.end as int,
                        ok: true,
                    }
                } else {
                    let rest = walk(d, h.end as int, end, depth);
                    WalkOut {
                        events: ev0 + child.events + rest.events,
                        count: 1 + child.count + rest.count,
                        silent: child.silent + rest.silent,
                        end_pos: rest.end_pos,
                        ok: rest.ok,
                    }
                }
            } else {
                let dec = leaf_decode(d, pos + 8, h.box_type, (depth + 1) as u64);
                if !dec.1 {
                    WalkOut { events: ev0, count: 1, silent: 0, end_pos: pos + 8, ok: false }
                } else if h.end as int >= end {
                    WalkOut {
                        events: ev0 + dec.0,
                        count: 1,
                        silent: 0,
                        end_pos: h.end as int,
                        ok: true,
                    }
                } else {
                    let rest = walk(d, h.end as int, end, depth);
                    WalkOut {
                        events: ev0 + dec.0 + rest.events,
                        count: 1 + rest.count,
                        silent: rest.silent,
                        end_pos: rest.end_pos,
                        ok: rest.ok,
                    }
                }
            }
        }
    }
}

/// Whether an event, if it reports a box, reports one that ends at or
/// before `end`.
pub open spec fn box_within(e: EventS, end: int) -> bool {
    e matches EventS::BoxInfo { header, .. } ==> header.end as int <= end
}

proof fn lemma_box_within_concat(x: Seq<EventS>, y: Seq<EventS>, end: int)
    requires
        forall|i: int| 0 <= i < x.len() ==> box_within(x[i], end),
        forall|i: int| 0 <= i < y.len() ==> box_within(y[i], end),
    ensures
        forall|i: int| 0 <= i < (x + y).len() ==> box_within((x + y)[i], end),
{
    assert forall|i: int| 0 <= i < (x + y).len() implies box_within((x + y)[i], end) by {
        if i < x.len() {
            assert(box_within(x[i], end));
        } else {
            assert(box_within(y[i - x.len()], end));
        }
    }
}

proof fn lemma_box_within_widen(s: Seq<EventS>, a: int, b: int)
    requires
        a <= b,
        forall|i: int| 0 <= i < s.len() ==> box_within(s[i], a),
    ensures
        forall|i: int| 0 <= i < s.len() ==> box_within(s[i], b),
{
}

proof fn lemma_box_event_count_single(e: EventS)
    ensures
        box_event_count(seq![e]) == if e is BoxInfo {
            1int
        } else {
            0int
        },
{
    assert(seq![e].drop_last() =~= Seq::<EventS>::empty());
    assert(seq![e].last() == e);
    assert(box_event_count(Seq::<EventS>::empty()) == 0);
}

/// The walk's structural laws, proved together by induction:
/// - a successful walk rests at or past its boundary, and no walk moves
///   the cursor backwards;
/// - the net count never exceeds the width of the walked range
///   (boundary-overrunning headers are never counted);
/// - the net count equals the number of reported boxes plus the silent
///   zero-size fixed-skip boxes — zero-size boxes otherwise contribute
///   net zero;
/// - every reported box ends at or before the boundary it was accepted
///   under, hence at or before the outermost boundary.
pub proof fn lemma_walk_props(d: Seq<u8>, pos: int, end: int, depth: int)
    requires
        0 <= pos,
        d.len() <= MAX_STREAM_LEN,
    ensures
        ({
            let w = walk(d, pos, end, depth);
            &&& w.end_pos >= pos
            &&& (w.ok ==> w.end_pos >= end)
            &&& 0 <= w.count
            &&& w.count <= (if end - pos >= 0 {
                end - pos
            } else {
                0
            })
            &&& 0 <= w.silent <= w.count
            &&& w.count == box_event_count(w.events) + w.silent
            &&& forall|i: int| 0 <= i < w.events.len() ==> box_within(w.events[i], end)
        }),
    decreases end - pos,
{
    let w = walk(d, pos, end, depth);
    if pos >= end {
    } else if pos + 8 > d.len() {
    } else {
        let h = header_at(d, pos);
        if h.end as int > end {
            if pos + 16 >= end {
            } else {
                lemma_walk_props(d, pos + 16, end, depth);
            }
        } else {
            let ev0: Seq<EventS> = if h.size != 0 {
                seq![EventS::BoxInfo { header: h, depth: depth as u64 }]
            } else {
                Seq::empty()
            };
            assert(pos + 1 <= h.end as int);
            if h.size != 0 {
                lemma_box_event_count_single(EventS::BoxInfo { header: h, depth: depth as u64 });
            }
            assert(forall|i: int| 0 <= i < ev0.len() ==> box_within(ev0[i], end));
            let skip = skip_bytes_for(h.box_type) as int;
            if skip > 0 {
                let cpos = pos + 8 + skip;
                let child = if is_container_tag(h.box_type) && cpos < h.end as int {
                    walk(d, cpos, h.end as int, depth + 1)
                } else {
                    walk_done(cpos)
                };
                if is_container_tag(h.box_type) && cpos < h.end as int {
                    lemma_walk_props(d, cpos, h.end as int, depth + 1);
                    lemma_box_within_widen(child.events, h.end as int, end);
                }
                lemma_box_event_count_add(ev0, child.events);
                lemma_box_within_concat(ev0, child.events, end);
                if child.ok {
                    let cont = if child.end_pos > pos + 8 {
                        child.end_pos
                    } else {
                        pos + 9
                    };
                    if cont >= end {
                    } else {
                        let rest = walk(d, cont, end, depth);
                        lemma_walk_props(d, cont, end, depth);
                        lemma_box_event_count_add(ev0 + child.events, rest.events);
                        lemma_box_within_concat(ev0 + child.events, rest.events, end);
                    }
                }
            } else if h.size == 0 {
                if pos + 8 >= end {
                } else {
                    lemma_walk_props(d, pos + 8, end, depth);
                }
            } else if is_container_tag(h.box_type) {
                let child = if pos + 8 < h.end as int {
                    walk(d, pos + 8, h.end as int, depth + 1)
                } else {
                    walk_done(pos + 8)
                };
                if pos + 8 < h.end as int {
                    lemma_walk_props(d, pos + 8, h.end as int, depth + 1);
                    lemma_box_within_widen(child.events, h.end as int, end);
                }
                lemma_box_event_count_add(ev0, child.events);
                lemma_box_within_concat(ev0, child.events, end);
                if child.ok {
                    if h.end as int >= end {
                    } else {
                        let rest = walk(d, h.end as int, end, depth);
                        lemma_walk_props(d, h.end as int, end, depth);
                        lemma_box_event_count_add(ev0 + child.events, rest.events);
                        lemma_box_within_concat(ev0 + child.events, rest.events, end);
                    }
                }
            } else {
                let dec = leaf_decode(d, pos + 8, h.box_type, (depth + 1) as u64);
                if dec.1 {
                    if dec.0.len() > 0 {
                        lemma_box_event_count_single(dec.0[0]);
                        assert(dec.0 =~= seq![dec.0[0]]);
                    }
                    lemma_box_event_count_add(ev0, dec.0);
                    lemma_box_within_concat(ev0, dec.0, end);
                    if h.end as int >= end {
                    } else {
                        let rest = walk(d, h.end as int, end, depth);
                        lemma_walk_props(d, h.end as int, end, depth);
                        lemma_box_event_count_add(ev0 + dec.0, rest.events);
                        lemma_box_within_concat(ev0 + dec.0, rest.events, end);
                    }
                }
            }
        }
    }
}

/// Boundary containment: every box the walk reports — at this level or any
/// nesting level below it — ends at or before the boundary the walk was
/// given. Overrunning boxes are skipped, never reported.
pub proof fn lemma_boundary_containment(d: Seq<u8>, pos: int, end: int, depth: int)
    requires
        0 <= pos,
        d.len() <= MAX_STREAM_LEN,
    ensures
        forall|i: int|
            0 <= i < walk(d, pos, end, depth).events.len() ==> box_within(
                walk(d, pos, end, depth).events[i],
                end,
            ),
{
    lemma_walk_props(d, pos, end, depth);
}

/// Count consistency: the walk's net count is the number of boxes it
/// reports plus its silent boxes — the accepted zero-size boxes of a
/// fixed-skip type, which stay counted but are never reported. Headers
/// skipped for overrunning the boundary are never counted, and every other
/// zero-size box contributes net zero; so whenever no silent box occurs,
/// the count is exactly the number of reported boxes.
pub proof fn lemma_count_consistency(d: Seq<u8>, pos: int, end: int, depth: int)
    requires
        0 <= pos,
        d.len() <= MAX_STREAM_LEN,
    ensures
        walk(d, pos, end, depth).count == box_event_count(walk(d, pos, end, depth).events) + walk(
            d,
            pos,
            end,
            depth,
        ).silent,
        walk(d, pos, end, depth).silent == 0 ==> walk(d, pos, end, depth).count == box_event_count(
            walk(d, pos, end, depth).events,
        ),
{
    lemma_walk_props(d, pos, end, depth);
}

/// Fixed-skip containers: when an accepted, reported box's tag declares a
/// fixed skip and is a container, the walk descends into its sub-boxes
/// exactly that many bytes past the 8-byte header — one level deeper,
/// bounded by the box's own end — so the walk's events open with the box's
/// own record followed by precisely that nested walk's events.
pub proof fn lemma_fixed_skip_recursion(d: Seq<u8>, pos: int, end: int, depth: int)
    requires
        0 <= pos,
        d.len() <= MAX_STREAM_LEN,
        pos < end,
        pos + 8 <= d.len(),
        header_at(d, pos).size != 0,
        header_at(d, pos).end as int <= end,
        skip_bytes_for(header_at(d, pos).box_type) > 0,
        is_container_tag(header_at(d, pos).box_type),
        pos + 8 + skip_bytes_for(header_at(d, pos).box_type) < header_at(d, pos).end as int,
    ensures
        ({
            let h = header_at(d, pos);
            let child = walk(d, pos + 8 + skip_bytes_for(h.box_type) as int, h.end as int, depth + 1);
            walk(d, pos, end, depth).events.take(1 + child.events.len() as int) == seq![
                (EventS::BoxInfo { header: h, depth: depth as u64 }),
            ] + child.events
        }),
{
    let h = header_at(d, pos);
    let ev0 = seq![EventS::BoxInfo { header: h, depth: depth as u64 }];
    let child = walk(d, pos + 8 + skip_bytes_for(h.box_type) as int, h.end as int, depth + 1);
    let w = walk(d, pos, end, depth);
    assert(w.events.take(1 + child.events.len() as int) =~= ev0 + child.events);
}

/// Record one accepted box for the reporter — unless its size is the zero
/// sentinel, which has no meaningful extent to report.
pub fn report_box_info(header: &BoxHeader, depth: u64, report: &mut Vec<Event>)
    ensures
        final(report)@ == if header.size != 0 {
            old(report)@.push((Event::BoxInfo { header: *header, depth }))
        } else {
            old(report)@
        },
{
    if header.size != 0 {
        report.push(Event::BoxInfo { header: *header, depth });
    }
}

/// Skip a leaf box's payload: advance by its declared size less the eight
/// header bytes already consumed.
pub fn skip_box_data(cursor: &mut ByteCursor, size: u32)
    requires
        size >= 8,
        old(cursor).position_spec() + size - 8 <= u64::MAX,
    ensures
        final(cursor).bytes() == old(cursor).bytes(),
        final(cursor).position_spec() == old(cursor).position_spec() + size - 8,
{
    cursor.seek_forward(size as u64 - 8);
}

/// Walk one box at the cursor: read its header and handle it — the
/// corruption skip, the fixed-skip path, the zero-size sentinel, a
/// container child walk, a typed decode or a generic skip — leaving the
/// cursor where the enclosing scan resumes. Returns the boxes counted by
/// this step (the box itself and everything inside it).
///
/// The contract composes the model: what the model walks from the entry
/// position is this step's events and count followed by what it walks from
/// the final position.
#[verifier::rlimit(100)]
fn walk_step(cursor: &mut ByteCursor, end: u64, depth: u64, report: &mut Vec<Event>) -> (r: Result<
    u64,
    ParseError,
>)
    requires
        depth <= old(cursor).position_spec(),
        old(cursor).position_spec() < end,
        old(cursor).bytes().len() <= MAX_STREAM_LEN,
    ensures
        final(cursor).bytes() == old(cursor).bytes(),
        ({
            let d = old(cursor).bytes();
            let w = walk(d, old(cursor).position_spec() as int, end as int, depth as int);
            &&& (r is Err ==> !w.ok && event_views(final(report)@) == event_views(old(report)@)
                + w.events)
            &&& (r matches Ok(c) ==> {
                let wn = walk(d, final(cursor).position_spec() as int, end as int, depth as int);
                &&& old(cursor).position_spec() < final(cursor).position_spec()
                &&& depth <= final(cursor).position_spec()
                &&& event_views(final(report)@) + wn.events == event_views(old(report)@) + w.events
                &&& w.ok == wn.ok
                &&& w.end_pos == wn.end_pos
                &&& w.count == c + wn.count
                &&& c <= end - old(cursor).position_spec()
            })
        }),
    decreases end as int - old(cursor).position_spec() as int, 0int,
{
    let pos = cursor.position();
    let ghost d = cursor.bytes();
    let ghost w = walk(d, pos as int, end as int, depth as int);
    let ghost report0 = report@;
    let header = match read_box_header(cursor) {
        Ok(h) => h,
        Err(e) => {
            proof {
                assert(w =~= walk_fail(pos as int));
                assert(event_views(report@) =~= event_views(report0) + w.events);
            }
            return Err(e);
        },
    };
    // the cursor sits just past the header
    if header.end > end {
        // corruption: skip an 8-byte stride past the header and rescan
        cursor.seek_forward(8);
        proof {
            let wn = walk(d, pos as int + 16, end as int, depth as int);
            if pos as int + 16 >= end as int {
                assert(w =~= walk_done(pos as int + 16));
                assert(wn =~= walk_done(pos as int + 16));
            }
            assert(w.events =~= wn.events);
            lemma_walk_props(d, pos as int + 16, end as int, depth as int);
        }
        return Ok(0);
    }
    report_box_info(&header, depth, report);
    let ghost ev0: Seq<EventS> = if header.size != 0 {
        seq![EventS::BoxInfo { header, depth }]
    } else {
        Seq::empty()
    };
    proof {
        assert(event_views(report@) =~= event_views(report0) + ev0);
    }
    let skip_bytes = header.get_skip_bytes();
    if skip_bytes > 0 {
        // a fixed prefix precedes this box's content: step over it, and
        // walk sub-boxes only if the tag is also a container
        cursor.seek_forward(skip_bytes);
        let ghost cpos = pos as int + 8 + skip_bytes as int;
        let ghost cw = if is_container_tag(header.box_type) && cpos < header.end as int {
            walk(d, cpos, header.end as int, depth as int + 1)
        } else {
            walk_done(cpos)
        };
        let mut child_count: u64 = 0;
        if header.is_container() {
            if cursor.position() < header.end {
                proof {
                    lemma_walk_props(d, cpos, header.end as int, depth as int + 1);
                }
                match parse_boxes(cursor, header.end, depth + 1, report) {
                    Ok(c) => {
                        child_count = c;
                    },
                    Err(e) => {
                        proof {
                            assert(w.events =~= ev0 + cw.events);
                            assert(event_views(report@) =~= event_views(report0) + (ev0
                                + cw.events));
                        }
                        return Err(e);
                    },
                }
            }
        }
        proof {
            if is_container_tag(header.box_type) && cpos < header.end as int {
                lemma_walk_props(d, cpos, header.end as int, depth as int + 1);
            }
            let cont = cursor.position_spec() as int;
            let wn = walk(d, cont, end as int, depth as int);
            lemma_walk_props(d, cont, end as int, depth as int);
            if cont >= end as int {
                assert(wn =~= walk_done(cont));
            }
            assert(w.events =~= ev0 + cw.events + wn.events);
            assert(event_views(report@) =~= event_views(report0) + (ev0 + cw.events));
            assert(event_views(report@) + wn.events =~= event_views(report0) + w.events);
        }
        return Ok(1 + child_count);
    }
    if header.size == 0 {
        // zero-size sentinel: structurally inert, net count zero
        cursor.seek_to(header.end);
        proof {
            assert(header.end as int == pos as int + 8);
            let wn = walk(d, pos as int + 8, end as int, depth as int);
            if pos as int + 8 >= end as int {
                assert(w =~= walk_done(pos as int + 8));
                assert(wn =~= walk_done(pos as int + 8));
            }
            assert(w.events =~= wn.events);
            lemma_walk_props(d, pos as int + 8, end as int, depth as int);
        }
        return Ok(0);
    }
    let ghost mut step_events: Seq<EventS> = Seq::empty();
    let mut child_count: u64 = 0;
    if header.is_container() {
        let ghost cw = if pos as int + 8 < header.end as int {
            walk(d, pos as int + 8, header.end as int, depth as int + 1)
        } else {
            walk_done(pos as int + 8)
        };
        proof {
            step_events = ev0 + cw.events;
        }
        if cursor.position() < header.end {
            proof {
                lemma_walk_props(d, pos as int + 8, header.end as int, depth as int + 1);
            }
            match parse_boxes(cursor, header.end, depth + 1, report) {
                Ok(c) => {
                    child_count = c;
                },
                Err(e) => {
                    proof {
                        assert(w.events =~= ev0 + cw.events);
                        assert(event_views(report@) =~= event_views(report0) + (ev0 + cw.events));
                    }
                    return Err(e);
                },
            }
        }
    } else {
        let ghost dec = leaf_decode(d, pos as int + 8, header.box_type, (depth + 1) as u64);
        proof {
            step_events = ev0 + dec.0;
        }
        if header.box_type == TAG_STSS {
            match parse_stss(cursor, depth + 1, report) {
                Ok(_) => {},
                Err(e) => {
                    proof {
                        assert(w.events =~= ev0);
                    }
                    return Err(e);
                },
            }
        } else if header.box_type == TAG_STCO {
            match parse_stco(cursor, depth + 1, report) {
                Ok(_) => {},
                Err(e) => {
                    proof {
                        assert(w.events =~= ev0);
                    }
                    return Err(e);
                },
            }
        } else if header.box_type == TAG_STSZ {
            match parse_stsz(cursor, depth + 1, report) {
                Ok(_) => {},
                Err(e) => {
                    proof {
                        assert(w.events =~= ev0);
                    }
                    return Err(e);
                },
            }
        } else if header.size >= 8 {
            skip_box_data(cursor, header.size);
        }
        // a declared size below eight cannot reach past its own header; the
        // realignment below lands at the declared end either way
        proof {
            assert(event_views(report@) =~= event_views(report0) + step_events);
        }
    }
    // the next sibling starts at the declared end, which the acceptance
    // check bounded by `end`; realign there, discarding any drift of the
    // chosen decode path
    cursor.seek_to(header.end);
    proof {
        let wn = walk(d, header.end as int, end as int, depth as int);
        lemma_walk_props(d, header.end as int, end as int, depth as int);
        if header.end as int >= end as int {
            assert(wn =~= walk_done(header.end as int));
        }
        assert(w.events =~= step_events + wn.events);
        assert(event_views(report@) =~= event_views(report0) + step_events);
        assert(event_views(report@) + wn.events =~= event_views(report0) + w.events);
        assert(w.count == 1 + child_count as int + wn.count);
    }
    Ok(1 + child_count)
}

/// Walk every box between the cursor and the exclusive boundary `end`,
/// appending the events to `report`, and return the net box count. The
/// events, the count, success and the final position are exactly the
/// model's: `walk` over the stream from the starting position.
///
/// A box nested `depth` levels deep cannot start before offset `depth`,
/// since every enclosing level begins at least one byte further into the
/// stream; requiring that keeps the depth counter from overflowing.
#[verifier::rlimit(100)]
#[verifier::loop_isolation(false)]
pub fn parse_boxes(cursor: &mut ByteCursor, end: u64, depth: u64, report: &mut Vec<Event>) -> (r:
    Result<u64, ParseError>)
    requires
        depth <= old(cursor).position_spec(),
    ensures
        final(cursor).bytes() == old(cursor).bytes(),
        ({
            let w = walk(
                old(cursor).bytes(),
                old(cursor).position_spec() as int,
                end as int,
                depth as int,
            );
            &&& (r is Ok <==> w.ok)
            &&& event_views(final(report)@) == event_views(old(report)@) + w.events
            &&& (r matches Ok(c) ==> c as int == w.count && final(cursor).position_spec() as int
                == w.end_pos)
        }),
    decreases end as int - old(cursor).position_spec() as int, 1int,
{
    let _stream_len = cursor.stream_len();
    let ghost d = cursor.bytes();
    let ghost pos0 = cursor.position_spec() as int;
    let ghost w0 = walk(d, pos0, end as int, depth as int);
    let ghost report0 = report@;
    proof {
        lemma_walk_props(d, pos0, end as int, depth as int);
        assert(event_views(report@) + w0.events =~= event_views(report0) + w0.events);
    }
    let mut count: u64 = 0;
    while cursor.position() < end
        invariant
            cursor.bytes() == d,
            depth as int <= cursor.position_spec() as int,
            pos0 <= cursor.position_spec() as int,
            0 <= w0.count <= (if end as int - pos0 >= 0 {
                end as int - pos0
            } else {
                0
            }),
            ({
                let w = walk(d, cursor.position_spec() as int, end as int, depth as int);
                &&& w0.ok == w.ok
                &&& event_views(report@) + w.events == event_views(report0) + w0.events
                &&& w0.count == count as int + w.count
                &&& w0.end_pos == w.end_pos
            }),
        decreases (if end as int >= cursor.position_spec() as int {
            end as int - cursor.position_spec() as int
        } else {
            0
        }),
    {
        let c = match walk_step(cursor, end, depth, report) {
            Ok(c) => c,
            Err(e) => {
                return Err(e);
            },
        };
        proof {
            lemma_walk_props(d, cursor.position_spec() as int, end as int, depth as int);
        }
        count = count + c;
    }
    proof {
        let pos = cursor.position_spec() as int;
        let w = walk(d, pos, end as int, depth as int);
        assert(w =~= walk_done(pos));
        assert(event_views(report@) =~= event_views(report@) + w.events);
    }
    Ok(count)
}

/// Walk a whole stream: every root box from offset zero to the stream's
/// length, at depth zero. Returns the events and the net box count, or the
/// error that aborted the walk.
pub fn parse_stream(data: Vec<u8>) -> (r: Result<(Vec<Event>, u64), ParseError>)
    requires
        data@.len() <= MAX_STREAM_LEN,
    ensures
        ({
            let w = walk(data@, 0, data@.len() as int, 0);
            &&& (r is Ok <==> w.ok)
            &&& (r matches Ok((events, total)) ==> event_views(events@) == w.events && total as int
                == w.count)
        }),
{
    let ghost d = data@;
    let mut cursor = ByteCursor::new(data);
    let len = cursor.stream_len();
    let mut report: Vec<Event> = Vec::new();
    proof {
        assert(event_views(Seq::<Event>::empty()) =~= Seq::<EventS>::empty());
    }
    match parse_boxes(&mut cursor, len, 0, &mut report) {
        Ok(c) => {
            proof {
                assert(event_views(report@) =~= walk(d, 0, d.len() as int, 0).events);
            }
            Ok((report, c))
        },
        Err(e) => Err(e),
    }
}

} // verus!
