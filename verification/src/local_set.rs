//! The local set: a bounded, tag-indexed collection of triplets. One
//! pass over a declared byte span reads triplet after triplet; a later
//! triplet with an already-seen tag replaces the earlier one, and the
//! collection keeps its entries in ascending tag order.

use vstd::prelude::*;

use crate::byte_source::ByteSource;
use crate::encoding::Error;
use crate::klv::spec_read_klv;
use crate::klv::Klv;

verus! {

/// Recommended, required or nominal byte counts that a tag dictionary
/// can state for the value of one tag.
#[derive(Clone, Copy, Debug, PartialEq, Eq, Structural)]
pub enum ValueLength {
    /// Recommended maximum length; items without a determinable limit
    /// have none.
    Max(u128),
    /// Required exact length: the value must have exactly this many
    /// bytes.
    Required(u128),
    /// Nominal length to use when the required length leaves it open.
    Length(u128),
}

/// Signalling values a tag dictionary can reserve inside a numeric
/// value's range.
#[derive(Clone, Copy, Debug, PartialEq, Eq, Structural)]
pub enum SpecialValue<T> {
    /// The value stands for "out of range" rather than a measurement.
    OutOfRange(T),
}

/// Entries are in strictly ascending tag order, so every tag occurs at
/// most once.
pub open spec fn tags_sorted(s: Seq<Klv>) -> bool {
    forall|i: int, j: int| 0 <= i < j < s.len() ==> #[trigger] s[i].tag < #[trigger] s[j].tag
}

/// Inserting into a tag-sorted sequence: a matching tag is replaced
/// (the later triplet wins), any other lands at its ordered place.
pub open spec fn spec_insert(s: Seq<Klv>, k: Klv) -> Seq<Klv>
    decreases s.len(),
{
    if s.len() == 0 {
        seq![k]
    } else if k.tag < s[0].tag {
        seq![k] + s
    } else if k.tag == s[0].tag {
        seq![k] + s.drop_first()
    } else {
        seq![s[0]] + spec_insert(s.drop_first(), k)
    }
}

/// What parsing the span `[pos, end)` of `d` into the accumulated
/// entries `acc` yields: triplet after triplet, each folded in with
/// `spec_insert`, until the span is exactly exhausted. A triplet that
/// would run past `end` is a malformed span, and a codec failure
/// propagates unchanged. (A successfully read triplet always moves the
/// position forward; the guard against a stalled position only serves
/// the termination measure.)
pub open spec fn spec_read_span(d: Seq<u8>, pos: int, end: int, acc: Seq<Klv>) -> Result<
    Seq<Klv>,
    Error,
>
    decreases end - pos,
{
    if pos >= end {
        if pos == end {
            Ok(acc)
        } else {
            Err(Error::MalformedSpan)
        }
    } else {
        match spec_read_klv(d, pos) {
            Err(e) => Err(e),
            Ok(k) => {
                let next = k.value_offset + k.length;
                if next > end || next <= pos {
                    Err(Error::MalformedSpan)
                } else {
                    spec_read_span(d, next, end, spec_insert(acc, k))
                }
            },
        }
    }
}

/// What reading a whole local set over the span `[start, end)` of `d`
/// yields.
pub open spec fn spec_read_local_set(d: Seq<u8>, start: int, end: int) -> Result<Seq<Klv>, Error> {
    spec_read_span(d, start, end, Seq::empty())
}

/// A successfully read triplet starts with at least one tag byte and
/// one length byte, so parsing it always moves the position forward,
/// and its value span stays within the data.
pub proof fn lemma_spec_read_klv_advances(d: Seq<u8>, pos: int)
    requires
        0 <= pos,
        d.len() <= u64::MAX,
    ensures
        spec_read_klv(d, pos) matches Ok(k) ==> pos + 2 <= k.value_offset && k.value_offset
            + k.length <= d.len(),
{
    if spec_read_klv(d, pos) is Ok {
        crate::encoding::ber_oid::lemma_oid_end_bounds(d, pos);
    }
}

/// A bounded, tag-indexed collection of triplets, in ascending tag
/// order, each tag held at most once.
#[derive(Clone, Debug)]
pub struct LocalSet {
    entries: Vec<Klv>,
}

impl LocalSet {
    /// The entries, in ascending tag order.
    pub closed spec fn triplets(self) -> Seq<Klv> {
        self.entries@
    }

    /// The entries are in strictly ascending tag order.
    pub open spec fn wf(self) -> bool {
        tags_sorted(self.triplets())
    }

    /// Number of triplets held.
    pub fn len(&self) -> (r: usize)
        ensures
            r == self.triplets().len(),
    {
        self.entries.len()
    }

    /// The triplet at place `i` of the ascending tag order.
    pub fn get(&self, i: usize) -> (r: &Klv)
        requires
            i < self.triplets().len(),
        ensures
            *r == self.triplets()[i as int],
    {
        &self.entries[i]
    }

    /// Looks a triplet up by its tag number.
    pub fn get_tag(&self, tag: u128) -> (r: Option<&Klv>)
        requires
            self.wf(),
        ensures
            r matches Some(k) ==> k.tag == tag && self.triplets().contains(*k),
            r is None ==> forall|i: int|
                0 <= i < self.triplets().len() ==> self.triplets()[i].tag != tag,
    {
        let mut i: usize = 0;
        while i < self.entries.len()
            invariant
                0 <= i <= self.entries.len(),
                forall|j: int| 0 <= j < i ==> self.entries@[j].tag != tag,
            decreases self.entries.len() - i,
        {
            if self.entries[i].tag == tag {
                return Some(&self.entries[i]);
            }
            i = i + 1;
        }
        None
    }

    /// Replaces the entry that shares `k`'s tag, or puts `k` at its
    /// ordered place.
    fn insert(entries: &mut Vec<Klv>, k: Klv)
        requires
            tags_sorted(old(entries)@),
        ensures
            final(entries)@ == spec_insert(old(entries)@, k),
            tags_sorted(final(entries)@),
    {
        let ghost s = old(entries)@;
        let mut i: usize = 0;
        while i < entries.len() && entries[i].tag < k.tag
            invariant
                entries@ == s,
                0 <= i <= s.len(),
                forall|j: int| 0 <= j < i ==> s[j].tag < k.tag,
            decreases entries.len() - i,
        {
            i = i + 1;
        }
        proof {
            lemma_spec_insert_at(s, k, i as int);
        }
        if i < entries.len() && entries[i].tag == k.tag {
            entries.set(i, k);
            assert forall|a: int, b: int|
                0 <= a < b < entries@.len() implies #[trigger] entries@[a].tag
                < #[trigger] entries@[b].tag by {
                if a == i as int {
                    assert(s[b].tag > s[a].tag);
                }
            }
        } else {
            entries.insert(i, k);
            assert forall|a: int, b: int|
                0 <= a < b < entries@.len() implies #[trigger] entries@[a].tag
                < #[trigger] entries@[b].tag by {
                assert(forall|c: int| 0 <= c < i ==> entries@[c] == s[c]);
                assert(entries@[i as int] == k);
                assert(forall|c: int| i < c < entries@.len() ==> entries@[c] == s[c - 1]);
            }
        }
    }

    /// Reads one local set over the span `[start_offset, end_offset)`:
    /// seeks to the start, then reads triplet after triplet until the
    /// span is exactly exhausted. A triplet that would run past the end
    /// of the span is a malformed span, and any codec failure aborts
    /// the whole read.
    pub fn read(start_offset: u64, end_offset: u64, src: &mut ByteSource) -> (r: Result<
        LocalSet,
        Error,
    >)
        requires
            old(src).wf(),
        ensures
            final(src).wf(),
            final(src).bytes() == old(src).bytes(),
            match spec_read_local_set(old(src).bytes(), start_offset as int, end_offset as int) {
                Ok(s) => r matches Ok(ls) && ls.triplets() == s && ls.wf(),
                Err(e) => r matches Err(e2) && e2 == e,
            },
    {
        Self::read_span_impl(start_offset, Some(end_offset), Ghost(end_offset as int), src)
    }

    /// The shared parsing pass behind local set reads. A span end of
    /// `None` stands for an end past every 64-bit position, as can
    /// arise when a declared length overflows position arithmetic: such
    /// a span can never be exactly exhausted, so the pass runs until a
    /// triplet read fails.
    #[verifier::loop_isolation(false)]
    pub(crate) fn read_span_impl(
        start_offset: u64,
        end_offset: Option<u64>,
        Ghost(true_end): Ghost<int>,
        src: &mut ByteSource,
    ) -> (r: Result<LocalSet, Error>)
        requires
            old(src).wf(),
            match end_offset {
                Some(e) => true_end == e,
                None => true_end > u64::MAX,
            },
        ensures
            final(src).wf(),
            final(src).bytes() == old(src).bytes(),
            match spec_read_span(old(src).bytes(), start_offset as int, true_end, Seq::empty()) {
                Ok(s) => r matches Ok(ls) && ls.triplets() == s && ls.wf(),
                Err(e) => r matches Err(e2) && e2 == e,
            },
    {
        let ghost d = old(src).bytes();
        let (bounded, end_exec): (bool, u64) = match end_offset {
            Some(e) => (true, e),
            None => (false, 0),
        };
        if bounded && start_offset > end_exec {
            return Err(Error::MalformedSpan);
        }
        src.seek(start_offset);
        let mut entries: Vec<Klv> = Vec::new();
        let mut cur: u64 = start_offset;
        while !bounded || cur < end_exec
            invariant
                src.wf(),
                src.bytes() == d,
                bounded ==> cur <= end_exec && true_end == end_exec,
                !bounded ==> true_end > u64::MAX,
                cur == start_offset || cur <= d.len(),
                src.pos() == if cur <= d.len() {
                    cur as int
                } else {
                    d.len() as int
                },
                tags_sorted(entries@),
                spec_read_span(d, start_offset as int, true_end, Seq::empty()) == spec_read_span(
                    d,
                    cur as int,
                    true_end,
                    entries@,
                ),
            decreases d.len() + 1 - cur,
        {
            proof {
                lemma_spec_read_klv_advances(d, cur as int);
                if cur > d.len() {
                    // Reading at the clamped position and at the logical
                    // position both exhaust the source.
                    assert(crate::encoding::ber_oid::spec_oid_end(d, cur as int) == -1);
                    assert(crate::encoding::ber_oid::spec_oid_end(d, d.len() as int) == -1);
                    assert(spec_read_klv(d, cur as int) == spec_read_klv(d, d.len() as int));
                }
            }
            let k = match Klv::new(src) {
                Ok(k) => k,
                Err(e) => {
                    return Err(e);
                },
            };
            let next = k.value_offset + k.length;
            if bounded && next > end_exec {
                return Err(Error::MalformedSpan);
            }
            Self::insert(&mut entries, k);
            cur = next;
        }
        Ok(LocalSet { entries })
    }
}

/// Where the scan for `k`'s place stops decides the shape of
/// `spec_insert`'s result: a tag match is an in-place replacement,
/// anything else an insertion at the stopping index.
proof fn lemma_spec_insert_at(s: Seq<Klv>, k: Klv, i: int)
    requires
        tags_sorted(s),
        0 <= i <= s.len(),
        forall|j: int| 0 <= j < i ==> s[j].tag < k.tag,
        i < s.len() ==> s[i].tag >= k.tag,
    ensures
        spec_insert(s, k) == if i < s.len() && s[i].tag == k.tag {
            s.update(i, k)
        } else {
            s.insert(i, k)
        },
    decreases i,
{
    if s.len() == 0 {
        assert(spec_insert(s, k) =~= s.insert(0, k));
    } else if i == 0 {
        if s[0].tag == k.tag {
            assert(seq![k] + s.drop_first() =~= s.update(0, k));
        } else {
            assert(seq![k] + s =~= s.insert(0, k));
        }
    } else {
        lemma_spec_insert_at(s.drop_first(), k, i - 1);
        if i < s.len() && s[i].tag == k.tag {
            assert(s.drop_first().update(i - 1, k) =~= s.update(i, k).drop_first());
            assert(seq![s[0]] + s.update(i, k).drop_first() =~= s.update(i, k));
        } else {
            assert(s.drop_first().insert(i - 1, k) =~= s.insert(i, k).drop_first());
            assert(s.insert(i, k)[0] == s[0]);
            assert(seq![s[0]] + s.insert(i, k).drop_first() =~= s.insert(i, k));
        }
    }
}

} // verus!
