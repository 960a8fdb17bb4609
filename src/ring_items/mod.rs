//! Ring items: the self-describing records of an event file. Each starts
//! with a 12-byte header of three little-endian `u32` fields: the total
//! size of the item in bytes, its type, and the size of its body header.
//! A body header size above 4 means that the payload opens with a body
//! header: a `u64` timestamp, a `u32` source id and a `u32` barrier type.

pub mod triggers_item;

use vstd::prelude::*;
use vstd::bytes::{
    spec_u32_from_le_bytes, spec_u32_to_le_bytes, spec_u64_from_le_bytes, spec_u64_to_le_bytes,
    u32_from_le_bytes, u32_to_le_bytes, u64_from_le_bytes, u64_to_le_bytes,
};
use vstd::slice::{slice_subrange, slice_to_vec};

verus! {

/// Bytes in the fixed header of every ring item.
pub const HEADER_SIZE: u32 = 12;

/// Bytes in a body header held in the payload.
pub const BODY_HEADER_SIZE: usize = 16;

/// Type of a physics event count (trigger count) item.
pub const PHYSICS_EVENT_COUNT: u32 = 31;

/// Type of an item holding parameter definitions (name and id pairs).
pub const PARAMETER_DEFINITIONS: u32 = 32768;

/// Type of an item holding variable values.
pub const VARIABLE_VALUES: u32 = 32769;

/// Type of an item holding the parameters of one event.
pub const PARAMETER_DATA: u32 = 32770;

/// Layout generations of the ring item format.
#[derive(Clone, Copy, Debug, PartialEq, Eq)]
pub enum RingVersion {
    V11,
    V12,
}

/// The optional body header of an item.
#[derive(Clone, Copy, Debug, PartialEq, Eq)]
pub struct BodyHeader {
    pub timestamp: u64,
    pub source_id: u32,
    pub barrier_type: u32,
}

/// Why an item could not be read.
#[derive(Clone, Copy, Debug, PartialEq, Eq)]
pub enum RingItemError {
    /// The bytes end inside the header.
    HeaderReadFailed,
    /// The size field is smaller than the header.
    InvalidHeader,
    /// The bytes end before the size field says the item does.
    FileTooSmall,
}

/// The little-endian `u32` at `at` in `s`.
pub open spec fn le32(s: Seq<u8>, at: int) -> u32 {
    spec_u32_from_le_bytes(s.subrange(at, at + 4))
}

/// The little-endian `u64` at `at` in `s`.
pub open spec fn le64(s: Seq<u8>, at: int) -> u64 {
    spec_u64_from_le_bytes(s.subrange(at, at + 8))
}

/// The bytes of a body header as it stands in a payload.
pub open spec fn body_header_bytes(timestamp: u64, source: u32, barrier: u32) -> Seq<u8> {
    spec_u64_to_le_bytes(timestamp) + spec_u32_to_le_bytes(source) + spec_u32_to_le_bytes(barrier)
}

/// The bytes of an item: its header, then its payload.
pub open spec fn item_bytes(item: RingItem) -> Seq<u8> {
    spec_u32_to_le_bytes(item.spec_size()) + spec_u32_to_le_bytes(item.spec_type_id())
        + spec_u32_to_le_bytes(item.spec_body_header_size()) + item.spec_payload()
}

/// Reading the bytes of an item gives the item back: its header fields,
/// and as payload exactly the bytes that its size field covers.
pub proof fn lemma_item_bytes_read_back(item: RingItem)
    requires
        item.wf(),
    ensures
        ({
            let b = item_bytes(item);
            &&& b.len() == item.spec_size()
            &&& le32(b, 0) == item.spec_size()
            &&& le32(b, 4) == item.spec_type_id()
            &&& le32(b, 8) == item.spec_body_header_size()
            &&& b.subrange(HEADER_SIZE as int, item.spec_size() as int) == item.spec_payload()
        }),
{
    vstd::bytes::lemma_auto_spec_u32_to_from_le_bytes();
    let b = item_bytes(item);
    let s = spec_u32_to_le_bytes(item.spec_size());
    let t = spec_u32_to_le_bytes(item.spec_type_id());
    let h = spec_u32_to_le_bytes(item.spec_body_header_size());
    assert(b.subrange(0, 4) =~= s);
    assert(b.subrange(4, 8) =~= t);
    assert(b.subrange(8, 12) =~= h);
    assert(b.subrange(12, b.len() as int) =~= item.spec_payload());
}

/// The little-endian `u32` at `at` of `s`.
pub fn read_u32(s: &[u8], at: usize) -> (r: u32)
    requires
        at + 4 <= s@.len(),
    ensures
        r == le32(s@, at as int),
{
    let n = s.len();
    u32_from_le_bytes(slice_subrange(s, at, at + 4))
}

/// The little-endian `u64` at `at` of `s`.
pub fn read_u64(s: &[u8], at: usize) -> (r: u64)
    requires
        at + 8 <= s@.len(),
    ensures
        r == le64(s@, at as int),
{
    let n = s.len();
    u64_from_le_bytes(slice_subrange(s, at, at + 8))
}

/// An item whose payload is still raw bytes.
pub struct RingItem {
    size: u32,
    type_id: u32,
    body_header_size: u32,
    payload: Vec<u8>,
}

impl RingItem {
    pub closed spec fn spec_size(&self) -> u32 {
        self.size
    }

    pub closed spec fn spec_type_id(&self) -> u32 {
        self.type_id
    }

    pub closed spec fn spec_body_header_size(&self) -> u32 {
        self.body_header_size
    }

    pub closed spec fn spec_payload(&self) -> Seq<u8> {
        self.payload@
    }

    /// The size field counts the header and the payload.
    pub open spec fn wf(&self) -> bool {
        self.spec_size() == HEADER_SIZE + self.spec_payload().len()
    }

    /// An empty item of type `t`, without body header.
    pub fn new(t: u32) -> (r: RingItem)
        ensures
            r.wf(),
            r.spec_type_id() == t,
            r.spec_body_header_size() == 4,
            r.spec_payload().len() == 0,
    {
        RingItem { size: HEADER_SIZE, type_id: t, body_header_size: 4, payload: Vec::new() }
    }

    /// An item of type `t` whose payload opens with the given body header.
    pub fn new_with_body_header(t: u32, stamp: u64, source: u32, barrier: u32) -> (r: RingItem)
        ensures
            r.wf(),
            r.spec_type_id() == t,
            r.spec_body_header_size() == 20,
            r.spec_payload() == body_header_bytes(stamp, source, barrier),
    {
        proof {
            vstd::bytes::lemma_auto_spec_u32_to_from_le_bytes();
            vstd::bytes::lemma_auto_spec_u64_to_from_le_bytes();
        }
        let mut result = RingItem::new(t);
        result.body_header_size = 20;
        result.add_u64(stamp);
        result.add_u32(source);
        result.add_u32(barrier);
        assert(result.payload@ =~= body_header_bytes(stamp, source, barrier));
        result
    }

    pub fn size(&self) -> (r: u32)
        ensures
            r == self.spec_size(),
    {
        self.size
    }

    pub fn type_id(&self) -> (r: u32)
        ensures
            r == self.spec_type_id(),
    {
        self.type_id
    }

    pub fn body_header_size(&self) -> (r: u32)
        ensures
            r == self.spec_body_header_size(),
    {
        self.body_header_size
    }

    pub fn has_body_header(&self) -> (r: bool)
        ensures
            r == (self.spec_body_header_size() > 4),
    {
        self.body_header_size > 4
    }

    pub fn payload(&self) -> (r: &Vec<u8>)
        ensures
            r@ == self.spec_payload(),
    {
        &self.payload
    }

    /// The body header, where the item has one and its payload holds it.
    pub fn get_bodyheader(&self) -> (r: Option<BodyHeader>)
        ensures
            r is Some <==> self.spec_body_header_size() > 4 && self.spec_payload().len() >= BODY_HEADER_SIZE,
            r matches Some(b) ==> b == (BodyHeader {
                timestamp: le64(self.spec_payload(), 0),
                source_id: le32(self.spec_payload(), 8),
                barrier_type: le32(self.spec_payload(), 12),
            }),
    {
        if self.body_header_size > 4 && self.payload.len() >= BODY_HEADER_SIZE {
            let p = self.payload.as_slice();
            Some(BodyHeader { timestamp: read_u64(p, 0), source_id: read_u32(p, 8), barrier_type: read_u32(p, 12) })
        } else {
            None
        }
    }

    /// Appends bytes to the payload.
    fn add_bytes(&mut self, b: &Vec<u8>)
        requires
            old(self).wf(),
            old(self).spec_size() + b@.len() <= u32::MAX,
        ensures
            final(self).wf(),
            final(self).spec_payload() == old(self).spec_payload() + b@,
            final(self).spec_type_id() == old(self).spec_type_id(),
            final(self).spec_body_header_size() == old(self).spec_body_header_size(),
    {
        let mut k: usize = 0;
        while k < b.len()
            invariant
                k <= b@.len(),
                self.payload@ == old(self).payload@ + b@.take(k as int),
                self.size == old(self).size,
                self.type_id == old(self).type_id,
                self.body_header_size == old(self).body_header_size,
            decreases b.len() - k,
        {
            self.payload.push(b[k]);
            assert(b@.take(k + 1) == b@.take(k as int).push(b@[k as int]));
            k += 1;
        }
        assert(b@.take(b@.len() as int) == b@);
        self.size = self.size + b.len() as u32;
    }

    /// Appends a little-endian `u32` to the payload.
    pub fn add_u32(&mut self, v: u32)
        requires
            old(self).wf(),
            old(self).spec_size() + 4 <= u32::MAX,
        ensures
            final(self).wf(),
            final(self).spec_payload() == old(self).spec_payload() + spec_u32_to_le_bytes(v),
            final(self).spec_type_id() == old(self).spec_type_id(),
            final(self).spec_body_header_size() == old(self).spec_body_header_size(),
    {
        let b = u32_to_le_bytes(v);
        self.add_bytes(&b);
    }

    /// Appends a little-endian `u64` to the payload.
    pub fn add_u64(&mut self, v: u64)
        requires
            old(self).wf(),
            old(self).spec_size() + 8 <= u32::MAX,
        ensures
            final(self).wf(),
            final(self).spec_payload() == old(self).spec_payload() + spec_u64_to_le_bytes(v),
            final(self).spec_type_id() == old(self).spec_type_id(),
            final(self).spec_body_header_size() == old(self).spec_body_header_size(),
    {
        let b = u64_to_le_bytes(v);
        self.add_bytes(&b);
    }

    /// Reads the item at the start of `bytes`; the next item starts
    /// `size()` bytes further on.
    pub fn read_item(bytes: &[u8]) -> (r: Result<RingItem, RingItemError>)
        ensures
            bytes@.len() < 4 ==> r == Err::<RingItem, _>(RingItemError::HeaderReadFailed),
            bytes@.len() >= 4 && le32(bytes@, 0) < HEADER_SIZE ==> r == Err::<RingItem, _>(
                RingItemError::InvalidHeader,
            ),
            bytes@.len() >= 4 && le32(bytes@, 0) >= HEADER_SIZE && bytes@.len() < HEADER_SIZE ==> r == Err::<
                RingItem,
                _,
            >(RingItemError::HeaderReadFailed),
            bytes@.len() >= HEADER_SIZE && le32(bytes@, 0) >= HEADER_SIZE && bytes@.len() < le32(bytes@, 0) ==> r
                == Err::<RingItem, _>(RingItemError::FileTooSmall),
            bytes@.len() >= HEADER_SIZE && HEADER_SIZE <= le32(bytes@, 0) <= bytes@.len() ==> (r matches Ok(item)
                && item.wf() && item.spec_size() == le32(bytes@, 0) && item.spec_type_id() == le32(bytes@, 4)
                && item.spec_body_header_size() == le32(bytes@, 8) && item.spec_payload() == bytes@.subrange(
                HEADER_SIZE as int,
                le32(bytes@, 0) as int,
            )),
    {
        if bytes.len() < 4 {
            return Err(RingItemError::HeaderReadFailed);
        }
        let size = read_u32(bytes, 0);
        if size < HEADER_SIZE {
            return Err(RingItemError::InvalidHeader);
        }
        if bytes.len() < 12 {
            return Err(RingItemError::HeaderReadFailed);
        }
        let type_id = read_u32(bytes, 4);
        let body_header_size = read_u32(bytes, 8);
        if bytes.len() < size as usize {
            return Err(RingItemError::FileTooSmall);
        }
        let payload = slice_to_vec(slice_subrange(bytes, 12, size as usize));
        Ok(RingItem { size, type_id, body_header_size, payload })
    }

    /// The bytes of the item: its header, then its payload.
    pub fn to_bytes(&self) -> (r: Vec<u8>)
        requires
            self.wf(),
        ensures
            r@ == item_bytes(*self),
    {
        let mut out = u32_to_le_bytes(self.size);
        let t = u32_to_le_bytes(self.type_id);
        let h = u32_to_le_bytes(self.body_header_size);
        append(&mut out, &t);
        append(&mut out, &h);
        append(&mut out, &self.payload);
        out
    }
}

/// Appends `b` to `out`.
fn append(out: &mut Vec<u8>, b: &Vec<u8>)
    ensures
        final(out)@ == old(out)@ + b@,
{
    let mut k: usize = 0;
    while k < b.len()
        invariant
            k <= b@.len(),
            out@ == old(out)@ + b@.take(k as int),
        decreases b.len() - k,
    {
        out.push(b[k]);
        assert(b@.take(k + 1) == b@.take(k as int).push(b@[k as int]));
        k += 1;
    }
    assert(b@.take(b@.len() as int) == b@);
}

} // verus!
