//! Physics event count items report how many triggers have been seen since
//! the start of the run. They give the accepted event rate and, for a
//! sampling client, the fraction of events analysed.
//!
//! Payload, after the body header if there is one: the time offset, its
//! divisor and the absolute time in seconds (three `u32`), then for the
//! 11.x layout the event count (`u64`), for the 12.x layout the original
//! source id (`u32`) and the event count (`u64`).

use vstd::prelude::*;
use vstd::bytes::{spec_u32_to_le_bytes, spec_u64_to_le_bytes};
use super::{
    body_header_bytes, le32, le64, read_u32, read_u64, BodyHeader, RingItem, RingVersion,
    BODY_HEADER_SIZE, PHYSICS_EVENT_COUNT,
};

verus! {

/// Relies on `std::time::SystemTime::elapsed` of the Unix epoch: the time
/// now, as whole seconds since the epoch (0 where the clock reads earlier).
/// Nothing is promised of the value.
#[verifier::external_body]
fn seconds_now() -> (r: u64) {
    std::time::UNIX_EPOCH.elapsed().map_or(0, |d| d.as_secs())
}

/// Bytes of the fields that follow the body header, by layout.
pub open spec fn count_fields_len(version: RingVersion) -> int {
    match version {
        RingVersion::V11 => 20,
        RingVersion::V12 => 24,
    }
}

/// Where the fields start in the payload of `raw`: after the body header
/// if the item has one.
pub open spec fn fields_offset(raw: RingItem) -> int {
    if raw.spec_body_header_size() > 4 && raw.spec_payload().len() >= BODY_HEADER_SIZE {
        BODY_HEADER_SIZE as int
    } else {
        0
    }
}

/// The layout that an item's fields call for: 12.x where it carries an
/// original source id, 11.x where it does not.
pub open spec fn layout_of(c: PhysicsEventCountItem) -> RingVersion {
    if c.spec_original_sid() is Some {
        RingVersion::V12
    } else {
        RingVersion::V11
    }
}

/// The payload that an item is written as.
pub open spec fn count_payload(c: PhysicsEventCountItem) -> Seq<u8> {
    let head = match c.spec_body_header() {
        Some(bh) => body_header_bytes(bh.timestamp, bh.source_id, bh.barrier_type),
        None => Seq::empty(),
    };
    let sid = match c.spec_original_sid() {
        Some(sid) => spec_u32_to_le_bytes(sid),
        None => Seq::empty(),
    };
    head + spec_u32_to_le_bytes(c.spec_time_offset()) + spec_u32_to_le_bytes(c.spec_time_divisor())
        + spec_u32_to_le_bytes(c.spec_absolute_time()) + sid + spec_u64_to_le_bytes(c.spec_event_count())
}

/// A trigger count item.
pub struct PhysicsEventCountItem {
    body_header: Option<BodyHeader>,
    time_offset: u32,
    time_divisor: u32,
    absolute_time: u32,
    original_sid: Option<u32>,
    event_count: u64,
}

impl PhysicsEventCountItem {
    pub closed spec fn spec_body_header(&self) -> Option<BodyHeader> {
        self.body_header
    }

    pub closed spec fn spec_time_offset(&self) -> u32 {
        self.time_offset
    }

    pub closed spec fn spec_time_divisor(&self) -> u32 {
        self.time_divisor
    }

    pub closed spec fn spec_absolute_time(&self) -> u32 {
        self.absolute_time
    }

    pub closed spec fn spec_original_sid(&self) -> Option<u32> {
        self.original_sid
    }

    pub closed spec fn spec_event_count(&self) -> u64 {
        self.event_count
    }

    /// An item with no body header and no triggers, stamped `absolute_time`
    /// (seconds since the Unix epoch).
    pub fn at_time(absolute_time: u32) -> (r: PhysicsEventCountItem)
        ensures
            r.spec_body_header() is None,
            r.spec_time_offset() == 0,
            r.spec_time_divisor() == 1,
            r.spec_absolute_time() == absolute_time,
            r.spec_original_sid() is None,
            r.spec_event_count() == 0,
    {
        PhysicsEventCountItem {
            body_header: None,
            time_offset: 0,
            time_divisor: 1,
            absolute_time,
            original_sid: None,
            event_count: 0,
        }
    }

    /// An item with no body header and no triggers, stamped now (the
    /// largest `u32` once the seconds no longer fit).
    pub fn new() -> (r: PhysicsEventCountItem)
        ensures
            r.spec_body_header() is None,
            r.spec_time_offset() == 0,
            r.spec_time_divisor() == 1,
            r.spec_original_sid() is None,
            r.spec_event_count() == 0,
    {
        let now = seconds_now();
        let t = if now > u32::MAX as u64 {
            u32::MAX
        } else {
            now as u32
        };
        Self::at_time(t)
    }

    pub fn get_bodyheader(&self) -> (r: Option<BodyHeader>)
        ensures
            r == self.spec_body_header(),
    {
        self.body_header
    }

    pub fn get_timeoffset(&self) -> (r: u32)
        ensures
            r == self.spec_time_offset(),
    {
        self.time_offset
    }

    pub fn get_time_divisor(&self) -> (r: u32)
        ensures
            r == self.spec_time_divisor(),
    {
        self.time_divisor
    }

    pub fn get_original_sid(&self) -> (r: Option<u32>)
        ensures
            r == self.spec_original_sid(),
    {
        self.original_sid
    }

    pub fn get_event_count(&self) -> (r: u64)
        ensures
            r == self.spec_event_count(),
    {
        self.event_count
    }

    /// Seconds since the Unix epoch.
    pub fn get_absolute_time(&self) -> (r: u32)
        ensures
            r == self.spec_absolute_time(),
    {
        self.absolute_time
    }

    /// The item that `raw` holds, if it is a trigger count item whose
    /// payload is long enough for `version`.
    pub fn from_raw(raw: &RingItem, version: RingVersion) -> (r: Option<PhysicsEventCountItem>)
        ensures
            r is Some <==> raw.spec_type_id() == PHYSICS_EVENT_COUNT && raw.spec_payload().len() >= fields_offset(*raw)
                + count_fields_len(version),
            r matches Some(c) ==> {
                let p = raw.spec_payload();
                let o = fields_offset(*raw);
                &&& c.spec_body_header() == if o == 0 {
                    None
                } else {
                    Some(
                        BodyHeader { timestamp: le64(p, 0), source_id: le32(p, 8), barrier_type: le32(p, 12) },
                    )
                }
                &&& c.spec_time_offset() == le32(p, o)
                &&& c.spec_time_divisor() == le32(p, o + 4)
                &&& c.spec_absolute_time() == le32(p, o + 8)
                &&& match version {
                    RingVersion::V11 => c.spec_original_sid() is None && c.spec_event_count() == le64(p, o + 12),
                    RingVersion::V12 => c.spec_original_sid() == Some(le32(p, o + 12)) && c.spec_event_count()
                        == le64(p, o + 16),
                }
            },
    {
        if raw.type_id() != PHYSICS_EVENT_COUNT {
            return None;
        }
        let body_header = raw.get_bodyheader();
        let offset: usize = if body_header.is_some() {
            BODY_HEADER_SIZE
        } else {
            0
        };
        let p = raw.payload().as_slice();
        let need: usize = match version {
            RingVersion::V11 => 20,
            RingVersion::V12 => 24,
        };
        if p.len() < offset + need {
            return None;
        }
        let mut result = Self::at_time(read_u32(p, offset + 8));
        result.body_header = body_header;
        result.time_offset = read_u32(p, offset);
        result.time_divisor = read_u32(p, offset + 4);
        match version {
            RingVersion::V11 => {
                result.event_count = read_u64(p, offset + 12);
            },
            RingVersion::V12 => {
                result.original_sid = Some(read_u32(p, offset + 12));
                result.event_count = read_u64(p, offset + 16);
            },
        }
        Some(result)
    }

    /// A raw item equivalent to this one: body header if any, then the
    /// fields in the layout that the presence of an original source id
    /// selects.
    pub fn to_raw(&self) -> (r: RingItem)
        ensures
            r.wf(),
            r.spec_type_id() == PHYSICS_EVENT_COUNT,
            r.spec_body_header_size() == if self.spec_body_header() is Some {
                20u32
            } else {
                4u32
            },
            r.spec_payload() == count_payload(*self),
    {
        proof {
            vstd::bytes::lemma_auto_spec_u32_to_from_le_bytes();
            vstd::bytes::lemma_auto_spec_u64_to_from_le_bytes();
        }
        let mut result = match self.body_header {
            Some(bh) => RingItem::new_with_body_header(
                PHYSICS_EVENT_COUNT,
                bh.timestamp,
                bh.source_id,
                bh.barrier_type,
            ),
            None => RingItem::new(PHYSICS_EVENT_COUNT),
        };
        let ghost start = result.spec_payload();
        result.add_u32(self.time_offset);
        result.add_u32(self.time_divisor);
        result.add_u32(self.absolute_time);
        let ghost mid = result.spec_payload();
        if let Some(sid) = self.original_sid {
            result.add_u32(sid);
        }
        let ghost before_count = result.spec_payload();
        result.add_u64(self.event_count);
        assert(result.spec_payload() =~= start + spec_u32_to_le_bytes(self.time_offset) + spec_u32_to_le_bytes(
            self.time_divisor,
        ) + spec_u32_to_le_bytes(self.absolute_time) + match self.original_sid {
            Some(sid) => spec_u32_to_le_bytes(sid),
            None => Seq::empty(),
        } + spec_u64_to_le_bytes(self.event_count));
        result
    }
}

/// Reading back the item that `to_raw` writes, in the layout its fields
/// call for, gives every field back.
pub proof fn lemma_count_item_read_back(c: PhysicsEventCountItem, raw: RingItem)
    requires
        raw.spec_type_id() == PHYSICS_EVENT_COUNT,
        raw.spec_body_header_size() == if c.spec_body_header() is Some {
            20u32
        } else {
            4u32
        },
        raw.spec_payload() == count_payload(c),
    ensures
        ({
            let p = raw.spec_payload();
            let o = fields_offset(raw);
            &&& p.len() >= o + count_fields_len(layout_of(c))
            &&& c.spec_body_header() == if o == 0 {
                None
            } else {
                Some(BodyHeader { timestamp: le64(p, 0), source_id: le32(p, 8), barrier_type: le32(p, 12) })
            }
            &&& c.spec_time_offset() == le32(p, o)
            &&& c.spec_time_divisor() == le32(p, o + 4)
            &&& c.spec_absolute_time() == le32(p, o + 8)
            &&& match layout_of(c) {
                RingVersion::V11 => c.spec_original_sid() is None && c.spec_event_count() == le64(p, o + 12),
                RingVersion::V12 => c.spec_original_sid() == Some(le32(p, o + 12)) && c.spec_event_count()
                    == le64(p, o + 16),
            }
        }),
{
    vstd::bytes::lemma_auto_spec_u32_to_from_le_bytes();
    vstd::bytes::lemma_auto_spec_u64_to_from_le_bytes();
    let p = raw.spec_payload();
    let head: Seq<u8> = match c.spec_body_header() {
        Some(bh) => body_header_bytes(bh.timestamp, bh.source_id, bh.barrier_type),
        None => Seq::empty(),
    };
    let o = head.len() as int;
    if let Some(bh) = c.spec_body_header() {
        assert(p.subrange(0, 8) =~= spec_u64_to_le_bytes(bh.timestamp));
        assert(p.subrange(8, 12) =~= spec_u32_to_le_bytes(bh.source_id));
        assert(p.subrange(12, 16) =~= spec_u32_to_le_bytes(bh.barrier_type));
    }
    assert(o == fields_offset(raw));
    assert(p.subrange(o, o + 4) =~= spec_u32_to_le_bytes(c.spec_time_offset()));
    assert(p.subrange(o + 4, o + 8) =~= spec_u32_to_le_bytes(c.spec_time_divisor()));
    assert(p.subrange(o + 8, o + 12) =~= spec_u32_to_le_bytes(c.spec_absolute_time()));
    match c.spec_original_sid() {
        Some(sid) => {
            assert(p.subrange(o + 12, o + 16) =~= spec_u32_to_le_bytes(sid));
            assert(p.subrange(o + 16, o + 24) =~= spec_u64_to_le_bytes(c.spec_event_count()));
        },
        None => {
            assert(p.subrange(o + 12, o + 20) =~= spec_u64_to_le_bytes(c.spec_event_count()));
        },
    }
}

} // verus!
