//! The universal set locator: scans a byte source for every occurrence
//! of a fixed 16-byte universal key, and at each occurrence reads the
//! local set bounded by the length field that follows the key.
//!
//! The scan keeps the 16 most recently read bytes in a ring-buffer
//! window. After a match it decodes the length field and seeks past the
//! whole value, so key-like byte patterns inside a value can never
//! produce a false match.

use vstd::prelude::*;

use crate::byte_source::ByteSource;
use crate::encoding::ber::spec_ber_end;
use crate::encoding::Error;
use crate::klv::spec_read_length;
use crate::klv::Klv;
use crate::local_set::spec_read_local_set;
use crate::local_set::LocalSet;
use ringbuffer::RingBuffer;

verus! {

/// Length of a universal key: always 16 bytes.
pub const UNIVERSAL_KEY_LENGTH: usize = 16;

/// A 16-byte constant identifying a universal set's structural
/// boundary.
#[derive(Clone, Copy, Debug)]
pub struct UniversalKey(pub [u8; UNIVERSAL_KEY_LENGTH]);

impl UniversalKey {
    /// The key's bytes.
    pub open spec fn bytes(self) -> Seq<u8> {
        self.0@
    }

    pub fn new(key: [u8; UNIVERSAL_KEY_LENGTH]) -> (r: Self)
        ensures
            r.bytes() == key@,
    {
        UniversalKey(key)
    }

    /// The key's bytes, as the fixed-size array they are.
    pub fn as_bytes(&self) -> (r: &[u8; UNIVERSAL_KEY_LENGTH])
        ensures
            r@ == self.bytes(),
    {
        &self.0
    }
}

#[verifier::external_type_specification]
#[verifier::external_body]
#[verifier::reject_recursive_types(T)]
pub struct ExConstGenericRingBuffer<T, const CAP: usize>(
    ringbuffer::ConstGenericRingBuffer<T, CAP>,
);

/// The bytes a search window holds, oldest first.
pub uninterp spec fn window_bytes(w: ringbuffer::ConstGenericRingBuffer<u8, 16>) -> Seq<u8>;

/// Relies on ringbuffer::ConstGenericRingBuffer::from, which fills the
/// buffer with the array's items in index order, so the first array
/// item is the oldest.
#[verifier::external_body]
fn window_from(bytes: &Vec<u8>) -> (r: ringbuffer::ConstGenericRingBuffer<u8, 16>)
    requires
        bytes@.len() == 16,
    ensures
        window_bytes(r) == bytes@,
{
    let arr: [u8; UNIVERSAL_KEY_LENGTH] = bytes.as_slice().try_into().unwrap();
    ringbuffer::ConstGenericRingBuffer::from(arr)
}

/// Relies on ringbuffer::RingBuffer::enqueue, which on a full buffer
/// removes the oldest item and appends the new one at the back.
#[verifier::external_body]
fn window_push(w: &mut ringbuffer::ConstGenericRingBuffer<u8, 16>, b: u8)
    requires
        window_bytes(*old(w)).len() == 16,
    ensures
        window_bytes(*final(w)) == window_bytes(*old(w)).subrange(1, 16).push(b),
{
    let _ = w.enqueue(b);
}

/// Relies on itertools::equal and on the ring buffer's iterator, which
/// yields the buffer's items oldest first: the result says whether the
/// window's bytes equal the key's bytes.
#[verifier::external_body]
fn window_matches(w: &ringbuffer::ConstGenericRingBuffer<u8, 16>, key: &[u8; 16]) -> (r: bool)
    ensures
        r <==> window_bytes(*w) == key@,
{
    itertools::equal(w, key)
}

/// What the scan yields from a window `win` of the 16 most recently
/// read bytes, a cursor at `pos`, and the start offsets `acc` recorded
/// so far.
///
/// A window equal to the key records the offset 16 bytes back, then the
/// length field at the cursor is decoded and the cursor jumps past that
/// many value bytes. In either case one more byte slides into the
/// window and the scan goes on; it ends when that byte read would pass
/// the end of the data. (A decoded length field occupies at least one
/// byte, so the cursor always moves forward; the guard against a
/// stalled cursor only serves the termination measure.)
pub open spec fn spec_scan(
    d: Seq<u8>,
    key: Seq<u8>,
    win: Seq<u8>,
    pos: int,
    acc: Seq<u64>,
) -> Result<Seq<u64>, Error>
    decreases d.len() - pos,
{
    if win == key {
        match spec_read_length(d, pos) {
            Err(e) => Err(e),
            Ok(length) => {
                let recorded = acc.push((pos - 16) as u64);
                let next = spec_ber_end(d, pos) + length;
                if next >= d.len() {
                    Ok(recorded)
                } else if next < pos {
                    Ok(recorded)
                } else {
                    spec_scan(d, key, win.subrange(1, 16).push(d[next]), next + 1, recorded)
                }
            },
        }
    } else if pos >= d.len() {
        Ok(acc)
    } else {
        spec_scan(d, key, win.subrange(1, 16).push(d[pos]), pos + 1, acc)
    }
}

/// What scanning `d` for `key` from position `pos` yields: the start
/// offset of every occurrence, in ascending order. Fewer than 16
/// remaining bytes cannot hold a key, so the scan finds nothing.
pub open spec fn spec_start_locations(d: Seq<u8>, key: Seq<u8>, pos: int) -> Result<
    Seq<u64>,
    Error,
> {
    if pos + 16 > d.len() {
        Ok(Seq::empty())
    } else {
        spec_scan(d, key, d.subrange(pos, pos + 16), pos + 16, Seq::empty())
    }
}

/// The offsets are in ascending order.
pub open spec fn locations_ascending(s: Seq<u64>) -> bool {
    forall|i: int, j: int| 0 <= i < j < s.len() ==> #[trigger] s[i] <= #[trigger] s[j]
}

/// The scan only moves forward, so every offset it records is at least
/// as large as those recorded before it.
proof fn lemma_scan_ascending(d: Seq<u8>, key: Seq<u8>, win: Seq<u8>, pos: int, acc: Seq<u64>)
    requires
        16 <= pos <= d.len() <= u64::MAX,
        locations_ascending(acc),
        forall|i: int| 0 <= i < acc.len() ==> #[trigger] acc[i] <= pos - 16,
    ensures
        spec_scan(d, key, win, pos, acc) matches Ok(s) ==> locations_ascending(s),
    decreases d.len() - pos,
{
    if win == key {
        match spec_read_length(d, pos) {
            Err(_) => {},
            Ok(length) => {
                let recorded = acc.push((pos - 16) as u64);
                assert(forall|i: int|
                    0 <= i < recorded.len() ==> #[trigger] recorded[i] <= pos - 16);
                assert(locations_ascending(recorded));
                let next = spec_ber_end(d, pos) + length;
                if next >= d.len() || next < pos {
                } else {
                    assert(forall|i: int|
                        0 <= i < recorded.len() ==> #[trigger] recorded[i] <= (next + 1) - 16);
                    lemma_scan_ascending(
                        d,
                        key,
                        win.subrange(1, 16).push(d[next]),
                        next + 1,
                        recorded,
                    );
                }
            },
        }
    } else if pos >= d.len() {
    } else {
        lemma_scan_ascending(d, key, win.subrange(1, 16).push(d[pos]), pos + 1, acc);
    }
}

/// The start offsets a scan reports come in ascending order: the scan
/// runs strictly forward through the source.
pub proof fn lemma_start_locations_ascending(d: Seq<u8>, key: Seq<u8>, pos: int)
    requires
        0 <= pos,
        d.len() <= u64::MAX,
    ensures
        spec_start_locations(d, key, pos) matches Ok(s) ==> locations_ascending(s),
{
    if pos + 16 <= d.len() {
        lemma_scan_ascending(d, key, d.subrange(pos, pos + 16), pos + 16, Seq::empty());
    }
}

/// What reading the local set that follows a key occurrence at `start`
/// yields: the length field sits right after the 16 key bytes, and the
/// local set spans exactly that many bytes after the length field.
pub open spec fn spec_local_set_at(d: Seq<u8>, start: int) -> Result<Seq<Klv>, Error> {
    match spec_read_length(d, start + 16) {
        Err(e) => Err(e),
        Ok(length) => {
            let vstart = spec_ber_end(d, start + 16);
            spec_read_local_set(d, vstart, vstart + length)
        },
    }
}

/// What reading one local set at each recorded start offset yields, in
/// order; the first failure aborts the whole read.
pub open spec fn spec_sets_at(d: Seq<u8>, locs: Seq<u64>) -> Result<Seq<Seq<Klv>>, Error>
    decreases locs.len(),
{
    if locs.len() == 0 {
        Ok(Seq::empty())
    } else {
        match spec_local_set_at(d, locs[0] as int) {
            Err(e) => Err(e),
            Ok(s) => match spec_sets_at(d, locs.drop_first()) {
                Err(e) => Err(e),
                Ok(rest) => Ok(seq![s] + rest),
            },
        }
    }
}

/// What locating and reading every universal set of `d` yields: the
/// scan's start offsets, then one local set per offset.
pub open spec fn spec_read_all(d: Seq<u8>, key: Seq<u8>, pos: int) -> Result<Seq<Seq<Klv>>, Error> {
    match spec_start_locations(d, key, pos) {
        Err(e) => Err(e),
        Ok(locs) => spec_sets_at(d, locs),
    }
}

/// One universal set: the key that marks it, and the local set found
/// immediately after one occurrence of that key.
#[derive(Clone, Debug)]
pub struct UniversalSet {
    /// Key used to find the beginning of the local set.
    key: UniversalKey,
    /// The triplets parsed from the span that follows the key.
    data: LocalSet,
}

impl UniversalSet {
    /// The key's bytes.
    pub closed spec fn spec_key(self) -> Seq<u8> {
        self.key.bytes()
    }

    /// The triplets of the set's local set, in ascending tag order.
    pub closed spec fn triplets(self) -> Seq<Klv> {
        self.data.triplets()
    }

    /// The local set's entries are in strictly ascending tag order.
    pub open spec fn wf(self) -> bool {
        crate::local_set::tags_sorted(self.triplets())
    }

    /// Key used to find the beginning of the local set.
    pub fn key(&self) -> (r: &UniversalKey)
        ensures
            r.bytes() == self.spec_key(),
    {
        &self.key
    }

    /// The local set found after the key.
    pub fn data(&self) -> (r: &LocalSet)
        ensures
            r.triplets() == self.triplets(),
    {
        &self.data
    }

    /// Reads the universal set whose key occurrence starts at
    /// `starting_location`: skips the 16 key bytes, decodes the length
    /// field, and reads the local set over exactly that many bytes.
    pub fn new(key: &UniversalKey, src: &mut ByteSource, starting_location: u64) -> (r: Result<
        UniversalSet,
        Error,
    >)
        requires
            old(src).wf(),
        ensures
            final(src).wf(),
            final(src).bytes() == old(src).bytes(),
            match spec_local_set_at(old(src).bytes(), starting_location as int) {
                Ok(s) => r matches Ok(us) && us.spec_key() == key.bytes() && us.triplets() == s
                    && us.wf(),
                Err(e) => r matches Err(e2) && e2 == e,
            },
    {
        let ghost d = old(src).bytes();
        if starting_location > u64::MAX - 16 {
            return Err(Error::UnexpectedEof);
        }
        let header = starting_location + 16;
        src.seek(header);
        proof {
            if header > d.len() {
                // Reading at the clamped position and at the logical
                // position both exhaust the source.
                assert(spec_read_length(d, header as int) == spec_read_length(d, d.len() as int));
            }
        }
        let length = match Klv::read_length(src) {
            Ok(l) => l,
            Err(e) => {
                return Err(e);
            },
        };
        let value_start = src.position();
        let data = if length > u64::MAX - value_start {
            LocalSet::read_span_impl(
                value_start,
                None,
                Ghost(value_start as int + length as int),
                src,
            )
        } else {
            LocalSet::read_span_impl(
                value_start,
                Some(value_start + length),
                Ghost(value_start as int + length as int),
                src,
            )
        };
        match data {
            Ok(data) => Ok(UniversalSet { key: *key, data }),
            Err(e) => Err(e),
        }
    }

    /// Locates every occurrence of the key from the source's current
    /// position on and reads the universal set at each one. The first
    /// failure, in the scan or in any set, aborts the whole read.
    #[verifier::loop_isolation(false)]
    pub fn read_all(key: &UniversalKey, src: &mut ByteSource) -> (r: Result<
        Vec<UniversalSet>,
        Error,
    >)
        requires
            old(src).wf(),
        ensures
            final(src).wf(),
            final(src).bytes() == old(src).bytes(),
            match spec_read_all(old(src).bytes(), key.bytes(), old(src).pos()) {
                Ok(models) => r matches Ok(sets) && sets@.len() == models.len() && forall|i: int|
                    0 <= i < models.len() ==> (#[trigger] sets@[i]).spec_key() == key.bytes()
                        && sets@[i].triplets() == models[i] && sets@[i].wf(),
                Err(e) => r matches Err(e2) && e2 == e,
            },
    {
        let ghost d = old(src).bytes();
        let locations = match Self::start_locations(key, src) {
            Ok(l) => l,
            Err(e) => {
                return Err(e);
            },
        };
        let mut sets: Vec<UniversalSet> = Vec::new();
        let mut i: usize = 0;
        proof {
            assert(locations@.subrange(0, locations@.len() as int) =~= locations@);
            match spec_sets_at(d, locations@) {
                Err(_) => {},
                Ok(rest) => {
                    assert(sets@.map_values(|u: UniversalSet| u.triplets()) + rest =~= rest);
                },
            }
        }
        while i < locations.len()
            invariant
                src.wf(),
                src.bytes() == d,
                0 <= i <= locations@.len(),
                sets@.len() == i,
                forall|j: int|
                    0 <= j < i ==> (#[trigger] sets@[j]).spec_key() == key.bytes()
                        && sets@[j].wf(),
                spec_sets_at(d, locations@) == match spec_sets_at(
                    d,
                    locations@.subrange(i as int, locations@.len() as int),
                ) {
                    Err(e) => Err(e),
                    Ok(rest) => Ok(
                        sets@.map_values(|u: UniversalSet| u.triplets()) + rest,
                    ),
                },
            decreases locations@.len() - i,
        {
            let ghost suffix = locations@.subrange(i as int, locations@.len() as int);
            proof {
                assert(suffix[0] == locations@[i as int]);
                assert(suffix.drop_first() =~= locations@.subrange(
                    i + 1,
                    locations@.len() as int,
                ));
            }
            let us = match Self::new(key, src, locations[i]) {
                Ok(us) => us,
                Err(e) => {
                    return Err(e);
                },
            };
            let ghost sets_old = sets@;
            sets.push(us);
            i = i + 1;
            proof {
                let m = sets_old.map_values(|u: UniversalSet| u.triplets());
                let m2 = sets@.map_values(|u: UniversalSet| u.triplets());
                assert(m2 =~= m.push(us.triplets()));
                let rest_now = locations@.subrange(i as int, locations@.len() as int);
                match spec_sets_at(d, rest_now) {
                    Err(_) => {},
                    Ok(rest2) => {
                        assert(m + (seq![us.triplets()] + rest2) =~= m2 + rest2);
                    },
                }
            }
        }
        proof {
            let m = sets@.map_values(|u: UniversalSet| u.triplets());
            assert(locations@.subrange(i as int, locations@.len() as int) =~= Seq::<u64>::empty());
            assert(m + Seq::<Seq<Klv>>::empty() =~= m);
        }
        Ok(sets)
    }

    /// Returns the offset of the first byte of every occurrence of the
    /// key, scanning from the source's current position to the end.
    ///
    /// The scan reads byte by byte through a 16-byte window. At a
    /// match it records the offset, decodes the length field after the
    /// key, and seeks past that many value bytes before reading on, so
    /// bytes inside a value are never scanned. The source is left
    /// wherever the last read stopped; callers seek before reading
    /// anything else.
    #[verifier::loop_isolation(false)]
    pub fn start_locations(key: &UniversalKey, src: &mut ByteSource) -> (r: Result<
        Vec<u64>,
        Error,
    >)
        requires
            old(src).wf(),
        ensures
            final(src).wf(),
            final(src).bytes() == old(src).bytes(),
            match spec_start_locations(old(src).bytes(), key.bytes(), old(src).pos()) {
                Ok(s) => r matches Ok(v) && v@ == s,
                Err(e) => r matches Err(e2) && e2 == e,
            },
    {
        let ghost d = old(src).bytes();
        let ghost p0 = old(src).pos();
        let mut locations: Vec<u64> = Vec::new();
        let first = match src.read_bytes(UNIVERSAL_KEY_LENGTH) {
            Some(v) => v,
            None => {
                return Ok(locations);
            },
        };
        let mut window = window_from(&first);
        loop
            invariant
                src.wf(),
                src.bytes() == d,
                16 <= src.pos() <= d.len(),
                window_bytes(window).len() == 16,
                spec_start_locations(d, key.bytes(), p0) == spec_scan(
                    d,
                    key.bytes(),
                    window_bytes(window),
                    src.pos(),
                    locations@,
                ),
            decreases d.len() - src.pos(),
        {
            if window_matches(&window, &key.0) {
                let current_pos = src.position();
                locations.push(current_pos - 16);
                let value_length = match Klv::read_length(src) {
                    Ok(v) => v,
                    Err(e) => {
                        return Err(e);
                    },
                };
                let rem = src.remaining();
                if value_length >= rem {
                    return Ok(locations);
                }
                src.skip(value_length);
                let b = match src.read_byte() {
                    Some(b) => b,
                    None => {
                        return Ok(locations);
                    },
                };
                window_push(&mut window, b);
            } else {
                let b = match src.read_byte() {
                    Some(b) => b,
                    None => {
                        return Ok(locations);
                    },
                };
                window_push(&mut window, b);
            }
        }
    }
}

} // verus!
