use vstd::prelude::*;
use vstd::assert_seqs_equal;
use vstd::slice::slice_subrange;
use crate::error::Error;
use crate::length::{self, MAX_MAGNITUDE, prefix_size, prefix_bytes_wide};

verus! {

/// The number of placeholder bytes an anchor reserves.
pub const ANCHOR_SIZE: usize = 4;

/// The largest payload for which a closed anchor is compacted to a
/// 1-byte prefix.
pub const ANCHOR_SHRINK_LIMIT: usize = 16;

/// The initial capacity taken by the first growth of an empty buffer.
pub const INITIAL_CAPACITY: usize = 256;

/// The prefix a closed anchor leaves in front of a payload of
/// `payload` bytes: 1 byte up to the shrink threshold, else the wide
/// 4-byte form.
pub open spec fn anchor_prefix(payload: int) -> Seq<u8>
    recommends
        0 <= payload <= MAX_MAGNITUDE,
{
    if payload <= ANCHOR_SHRINK_LIMIT {
        prefix_bytes_wide(payload as u32, 1)
    } else {
        prefix_bytes_wide(payload as u32, 4)
    }
}

/// The smallest power-of-two doubling of `cursor` that reaches `amount`.
pub open spec fn grow_from(cursor: int, amount: int) -> int
    decreases (if cursor < amount { amount - cursor } else { 0 }),
{
    if cursor < 1 {
        amount
    } else if cursor < amount {
        grow_from(cursor * 2, amount)
    } else {
        cursor
    }
}

/// The capacity the growth policy picks: start at 256 when empty,
/// double from the current capacity until `amount` fits, then clamp to
/// `limits`.
pub open spec fn grow_target(capacity: int, amount: int, limits: int) -> int {
    let start = if capacity == 0 {
        INITIAL_CAPACITY as int
    } else {
        capacity
    };
    let grown = grow_from(start, amount);
    if grown > limits {
        limits
    } else {
        grown
    }
}

proof fn lemma_grow_from(cursor: int, amount: int)
    requires
        1 <= cursor,
    ensures
        grow_from(cursor, amount) >= amount,
        grow_from(cursor, amount) >= cursor,
    decreases (if cursor < amount { amount - cursor } else { 0 }),
{
    if cursor < amount {
        lemma_grow_from(cursor * 2, amount);
    }
}

/// The growable byte buffer: an owned, append-only memory region with
/// controlled capacity growth and the anchor/backpatch primitives.
pub struct Allocator {
    data: Vec<u8>,
    offset: usize,
    limits: usize,
}

impl View for Allocator {
    type V = Seq<u8>;

    /// The written prefix `[0, length)`, the only content the buffer
    /// promises anything about.
    closed spec fn view(&self) -> Seq<u8> {
        self.data@.subrange(0, self.offset as int)
    }
}

/// The text describing a buffer's three sizes; it depends on the
/// three numbers alone.
pub uninterp spec fn description_of(length: usize, capacity: usize, max_capacity: usize) -> Seq<
    char,
>;

/// Relies on `format!`: rendering three numbers into the fixed
/// description text depends on the numbers alone.
#[verifier::external_body]
fn render_description(length: usize, capacity: usize, max_capacity: usize) -> (r: String)
    ensures
        r@ == description_of(length, capacity, max_capacity),
{
    format!("length = {length}, capacity = {capacity}, max capacity = {max_capacity}")
}

/// A well-formed buffer's view is exactly its written prefix, so the
/// two lengths agree.
pub broadcast proof fn lemma_view_length(a: &Allocator)
    requires
        #[trigger] a.wf(),
    ensures
        a@.len() == a.spec_length(),
{
}

impl Allocator {
    /// Bytes written, as seen by contracts.
    pub closed spec fn spec_length(&self) -> int {
        self.offset as int
    }

    /// Bytes currently allocated, as seen by contracts.
    pub closed spec fn spec_capacity(&self) -> int {
        self.data@.len() as int
    }

    /// The hard capacity ceiling, as seen by contracts.
    pub closed spec fn spec_max_capacity(&self) -> int {
        self.limits as int
    }

    /// The buffer's invariant: the written prefix fits in the allocated
    /// region, which never exceeds the configured ceiling.
    pub closed spec fn wf(&self) -> bool {
        self.offset <= self.data@.len() <= self.limits <= MAX_MAGNITUDE
    }

    /// At every point of a buffer's life,
    /// `length <= capacity <= max_capacity`.
    pub proof fn lemma_growth_invariant(&self)
        requires
            self.wf(),
        ensures
            0 <= self.spec_length() <= self.spec_capacity() <= self.spec_max_capacity()
                <= MAX_MAGNITUDE,
            self@.len() == self.spec_length(),
    {
    }

    /// Creates an empty buffer: nothing written, nothing allocated, the
    /// ceiling at its default of 2^31 - 1.
    pub fn new() -> (r: Allocator)
        ensures
            r.wf(),
            r.spec_length() == 0,
            r.spec_capacity() == 0,
            r.spec_max_capacity() == MAX_MAGNITUDE,
            r@ == Seq::<u8>::empty(),
    {
        let r = Allocator { data: Vec::new(), offset: 0, limits: MAX_MAGNITUDE };
        proof {
            assert_seqs_equal!(r@, Seq::<u8>::empty());
        }
        r
    }

    /// Bytes written so far: the logical end of valid data.
    pub fn length(&self) -> (r: usize)
        ensures
            r as int == self.spec_length(),
    {
        self.offset
    }

    /// Bytes currently allocated.
    pub fn capacity(&self) -> (r: usize)
        ensures
            r as int == self.spec_capacity(),
    {
        self.data.len()
    }

    /// The hard ceiling no growth may exceed.
    pub fn max_capacity(&self) -> (r: usize)
        ensures
            r as int == self.spec_max_capacity(),
    {
        self.limits
    }

    /// A human-readable description of the buffer's three sizes.
    pub fn describe(&self) -> (r: String)
        ensures
            r@ == description_of(
                self.spec_length() as usize,
                self.spec_capacity() as usize,
                self.spec_max_capacity() as usize,
            ),
    {
        render_description(self.offset, self.data.len(), self.limits)
    }

    /// Reallocates to the capacity the growth policy picks for
    /// `length` more bytes, preserving the written prefix.
    fn resize(&mut self, length: usize) -> (r: Result<(), Error>)
        requires
            old(self).wf(),
            length != 0,
        ensures
            final(self).wf(),
            final(self).spec_length() == old(self).spec_length(),
            final(self).spec_max_capacity() == old(self).spec_max_capacity(),
            final(self)@ == old(self)@,
            r is Ok <==> (length <= MAX_MAGNITUDE && old(self).spec_length() + length
                <= old(self).spec_max_capacity()),
            r is Ok ==> final(self).spec_capacity() == grow_target(
                old(self).spec_capacity(),
                old(self).spec_length() + length,
                old(self).spec_max_capacity(),
            ) && final(self).spec_capacity() >= old(self).spec_length() + length,
            r is Err ==> *final(self) == *old(self) && r->Err_0 == Error::CapacityExceeded,
    {
        if length > MAX_MAGNITUDE {
            return Err(Error::CapacityExceeded);
        }
        let amount: usize = self.offset + length;
        if amount > self.limits {
            return Err(Error::CapacityExceeded);
        }
        let limits: usize = self.limits;
        let ghost start = if self.data@.len() == 0 {
            INITIAL_CAPACITY as int
        } else {
            self.data@.len() as int
        };
        let mut cursor: usize = if self.data.len() == 0 {
            INITIAL_CAPACITY
        } else {
            self.data.len()
        };
        while cursor < amount
            invariant
                1 <= cursor,
                cursor <= 2 * MAX_MAGNITUDE,
                amount <= MAX_MAGNITUDE,
                grow_from(cursor as int, amount as int) == grow_from(start, amount as int),
            decreases (if cursor < amount {
                amount - cursor
            } else {
                0
            }),
        {
            cursor = cursor * 2;
        }
        if cursor > limits {
            cursor = limits;
        }
        proof {
            lemma_grow_from(start, amount as int);
            assert(cursor as int == grow_target(
                old(self).spec_capacity(),
                amount as int,
                old(self).spec_max_capacity(),
            ));
        }
        let ghost before = self.data@;
        while self.data.len() < cursor
            invariant
                self.offset == old(self).offset,
                self.limits == old(self).limits,
                self.data@.len() >= before.len(),
                self.data@.subrange(0, before.len() as int) == before,
                self.data@.len() <= cursor,
            decreases cursor - self.data@.len(),
        {
            self.data.push(0);
            proof {
                assert_seqs_equal!(self.data@.subrange(0, before.len() as int), before);
            }
        }
        proof {
            assert(self.data@.len() == cursor);
            assert(old(self).offset <= before.len());
            assert_seqs_equal!(self@, old(self)@, i => {
                assert(self.data@.subrange(0, before.len() as int)[i] == before[i]);
            });
        }
        Ok(())
    }

    /// Guarantees at least `length` more bytes of capacity beyond the
    /// written prefix, growing if they are not already available.
    pub fn ensure(&mut self, length: usize) -> (r: Result<(), Error>)
        requires
            old(self).wf(),
        ensures
            final(self).wf(),
            final(self).spec_length() == old(self).spec_length(),
            final(self).spec_max_capacity() == old(self).spec_max_capacity(),
            final(self)@ == old(self)@,
            r is Ok <==> (length <= MAX_MAGNITUDE && old(self).spec_length() + length
                <= old(self).spec_max_capacity()),
            r is Ok ==> final(self).spec_capacity() >= final(self).spec_length() + length,
            r is Ok ==> final(self).spec_capacity() == (
            if old(self).spec_length() + length <= old(self).spec_capacity() {
                old(self).spec_capacity()
            } else {
                grow_target(
                    old(self).spec_capacity(),
                    old(self).spec_length() + length,
                    old(self).spec_max_capacity(),
                )
            }),
            r is Err ==> *final(self) == *old(self) && r->Err_0 == Error::CapacityExceeded,
    {
        if length <= MAX_MAGNITUDE && length <= self.data.len() && self.offset <= self.data.len()
            - length {
            return Ok(());
        }
        self.resize(length)
    }

    /// Reserves `length` bytes at the current write position, advancing
    /// the written length past them; the reserved bytes read as zero
    /// until a writer fills them. Returns the offset the reservation
    /// begins at.
    pub(crate) fn assign(&mut self, length: usize) -> (r: Result<usize, Error>)
        requires
            old(self).wf(),
            length != 0,
        ensures
            final(self).wf(),
            final(self).spec_max_capacity() == old(self).spec_max_capacity(),
            r is Ok <==> (length <= MAX_MAGNITUDE && old(self).spec_length() + length <= old(self).spec_max_capacity()),
            r is Ok ==> r->Ok_0 as int == old(self).spec_length() && final(self).spec_length()
                == old(self).spec_length() + length && final(self)@ == old(self)@ + Seq::new(
                length as nat,
                |i: int| 0u8,
            ),
            r is Ok ==> forall|i: int|
                0 <= i < old(self).spec_length() ==> #[trigger] final(self)@[i] == old(self)@[i],
            r is Ok ==> final(self).spec_capacity() == (
            if old(self).spec_length() + length <= old(self).spec_capacity() {
                old(self).spec_capacity()
            } else {
                grow_target(
                    old(self).spec_capacity(),
                    old(self).spec_length() + length,
                    old(self).spec_max_capacity(),
                )
            }),
            r is Err ==> *final(self) == *old(self) && r->Err_0 == Error::CapacityExceeded,
    {
        self.ensure(length)?;
        let offset: usize = self.offset;
        self.offset = offset + length;
        let ghost d0 = self.data@;
        let mut k: usize = 0;
        while k < length
            invariant
                k <= length,
                offset + length <= self.data@.len(),
                self.offset == offset + length,
                self.limits == old(self).limits,
                self.data@.len() == d0.len(),
                forall|i: int| 0 <= i < offset ==> self.data@[i] == d0[i],
                forall|i: int| offset <= i < offset + k ==> self.data@[i] == 0u8,
                forall|i: int|
                    offset + length <= i < self.data@.len() ==> self.data@[i] == d0[i],
            decreases length - k,
        {
            self.data[offset + k] = 0;
            k = k + 1;
        }
        proof {
            assert_seqs_equal!(self@, old(self)@ + Seq::new(length as nat, |i: int| 0u8));
        }
        Ok(offset)
    }

    /// Reserves 4 placeholder bytes for a length prefix whose value is
    /// not yet known, returning the offset at which they begin.
    pub(crate) fn anchor(&mut self) -> (r: Result<usize, Error>)
        requires
            old(self).wf(),
        ensures
            final(self).wf(),
            final(self).spec_max_capacity() == old(self).spec_max_capacity(),
            r is Ok <==> old(self).spec_length() + ANCHOR_SIZE <= old(self).spec_max_capacity(),
            r is Ok ==> r->Ok_0 as int == old(self).spec_length() && final(self).spec_length()
                == old(self).spec_length() + ANCHOR_SIZE && final(self)@ == old(self)@ + Seq::new(
                ANCHOR_SIZE as nat,
                |i: int| 0u8,
            ),
            r is Ok ==> forall|i: int|
                0 <= i < old(self).spec_length() ==> #[trigger] final(self)@[i] == old(self)@[i],
            r is Err ==> *final(self) == *old(self) && r->Err_0 == Error::CapacityExceeded,
    {
        self.assign(ANCHOR_SIZE)
    }

    /// Closes the anchor opened at `anchor`: writes the length of the
    /// payload that followed the placeholder into the reserved bytes,
    /// compacting to a 1-byte prefix (and shifting the payload left by
    /// 3) when the payload is no longer than the shrink threshold.
    pub(crate) fn finish_anchor(&mut self, anchor: usize) -> (r: Result<(), Error>)
        requires
            old(self).wf(),
        ensures
            final(self).wf(),
            final(self).spec_max_capacity() == old(self).spec_max_capacity(),
            final(self).spec_capacity() == old(self).spec_capacity(),
            r is Ok <==> anchor + ANCHOR_SIZE <= old(self).spec_length(),
            r is Err ==> *final(self) == *old(self) && r->Err_0 == Error::InvalidAnchor,
            r is Ok ==> ({
                let payload = old(self).spec_length() - anchor - ANCHOR_SIZE;
                final(self).spec_length() == anchor + anchor_prefix(payload).len() + payload
                    && final(self)@ == old(self)@.subrange(0, anchor as int) + anchor_prefix(
                    payload,
                ) + old(self)@.subrange(anchor + ANCHOR_SIZE, old(self).spec_length())
            }),
    {
        if anchor > MAX_MAGNITUDE || anchor + ANCHOR_SIZE > self.offset {
            return Err(Error::InvalidAnchor);
        }
        let offset: usize = self.offset;
        let payload: usize = offset - anchor - ANCHOR_SIZE;
        let ghost d0 = self.data@;
        if payload <= ANCHOR_SHRINK_LIMIT {
            length::write_prefix(self.data.as_mut_slice(), anchor, payload, 1);
            proof {
                assert(self.data@[anchor as int + 0] == prefix_bytes_wide(payload as u32, 1)[0]);
            }
            let mut k: usize = 0;
            while k < payload
                invariant
                    k <= payload,
                    anchor + ANCHOR_SIZE + payload == offset,
                    offset <= self.data@.len(),
                    self.offset == offset,
                    self.limits == old(self).limits,
                    self.data@.len() == d0.len(),
                    self.data@[anchor as int] == prefix_bytes_wide(payload as u32, 1)[0],
                    forall|i: int| 0 <= i < anchor ==> #[trigger] self.data@[i] == d0[i],
                    forall|j: int|
                        0 <= j < k ==> #[trigger] self.data@[anchor + 1 + j] == d0[anchor
                            + ANCHOR_SIZE + j],
                    forall|i: int|
                        anchor + 1 + k <= i < self.data@.len() ==> #[trigger] self.data@[i]
                            == d0[i],
                decreases payload - k,
            {
                let b: u8 = self.data[anchor + ANCHOR_SIZE + k];
                self.data[anchor + 1 + k] = b;
                k = k + 1;
            }
            self.offset = offset - 3;
            proof {
                assert_seqs_equal!(
                    self@,
                    old(self)@.subrange(0, anchor as int)
                        + prefix_bytes_wide(payload as u32, 1)
                        + old(self)@.subrange(anchor + ANCHOR_SIZE, old(self).spec_length()),
                    i => {
                        if i < anchor {
                            assert(self.data@[i] == d0[i]);
                        } else if i > anchor {
                            assert(self.data@[anchor + 1 + (i - anchor - 1)] == d0[anchor
                                + ANCHOR_SIZE + (i - anchor - 1)]);
                        }
                    }
                );
            }
        } else {
            length::write_prefix(self.data.as_mut_slice(), anchor, payload, 4);
            proof {
                assert_seqs_equal!(
                    self@,
                    old(self)@.subrange(0, anchor as int)
                        + prefix_bytes_wide(payload as u32, 4)
                        + old(self)@.subrange(anchor + ANCHOR_SIZE, old(self).spec_length()),
                    i => {
                        if anchor <= i < anchor + ANCHOR_SIZE {
                            assert(self.data@[anchor + (i - anchor)] == prefix_bytes_wide(
                                payload as u32,
                                4,
                            )[i - anchor]);
                        }
                    }
                );
            }
        }
        Ok(())
    }

    /// Copies `span` to the end of the buffer, growing first when
    /// needed; a no-op for empty input.
    pub fn append(&mut self, span: &[u8]) -> (r: Result<(), Error>)
        requires
            old(self).wf(),
        ensures
            final(self).wf(),
            final(self).spec_max_capacity() == old(self).spec_max_capacity(),
            r is Ok <==> (span@.len() == 0 || old(self).spec_length() + span@.len() <= old(self).spec_max_capacity()),
            r is Ok ==> final(self)@ == old(self)@ + span@ && final(self).spec_length() == old(self).spec_length() + span@.len(),
            r is Ok ==> final(self).spec_capacity() == (
            if span@.len() == 0 || old(self).spec_length() + span@.len() <= old(self).spec_capacity() {
                old(self).spec_capacity()
            } else {
                grow_target(
                    old(self).spec_capacity(),
                    old(self).spec_length() + span@.len(),
                    old(self).spec_max_capacity(),
                )
            }),
            r is Err ==> *final(self) == *old(self) && r->Err_0 == Error::CapacityExceeded,
    {
        if span.len() == 0 {
            proof {
                assert_seqs_equal!(self@, old(self)@ + span@);
            }
            return Ok(());
        }
        let offset: usize = self.assign(span.len())?;
        let ghost d0 = self.data@;
        let length: usize = span.len();
        let mut k: usize = 0;
        while k < length
            invariant
                k <= length,
                length == span@.len(),
                offset + length <= self.data@.len(),
                self.offset == offset + length,
                self.limits == old(self).limits,
                self.data@.len() == d0.len(),
                forall|i: int| 0 <= i < offset ==> self.data@[i] == d0[i],
                forall|j: int| 0 <= j < k ==> #[trigger] self.data@[offset + j] == span@[j],
                forall|i: int|
                    offset + length <= i < self.data@.len() ==> self.data@[i] == d0[i],
            decreases length - k,
        {
            let b: u8 = span[k];
            self.data[offset + k] = b;
            k = k + 1;
        }
        proof {
            assert_seqs_equal!(self@, old(self)@ + span@, i => {
                if i < offset {
                    assert(self.data@[i] == d0[i]);
                    assert(d0.subrange(0, (offset + length) as int)[i] == d0[i]);
                } else {
                    assert(self.data@[offset + (i - offset)] == span@[i - offset]);
                }
            });
        }
        Ok(())
    }

    /// Writes the length prefix of magnitude `n` in width `w` over `w`
    /// already-written bytes starting at `at`.
    pub(crate) fn write_prefix_at(&mut self, at: usize, n: usize, w: usize)
        requires
            old(self).wf(),
            n <= MAX_MAGNITUDE,
            w == 1 || w == 4,
            w as int >= prefix_size(n as int),
            at + w <= old(self).spec_length(),
        ensures
            final(self).wf(),
            final(self).spec_length() == old(self).spec_length(),
            final(self).spec_capacity() == old(self).spec_capacity(),
            final(self).spec_max_capacity() == old(self).spec_max_capacity(),
            final(self)@ == old(self)@.subrange(0, at as int) + prefix_bytes_wide(
                n as u32,
                w as int,
            ) + old(self)@.subrange(at + w, old(self).spec_length()),
    {
        length::write_prefix(self.data.as_mut_slice(), at, n, w);
        proof {
            assert_seqs_equal!(
                self@,
                old(self)@.subrange(0, at as int)
                    + prefix_bytes_wide(n as u32, w as int)
                    + old(self)@.subrange(at + w, old(self).spec_length()),
                i => {
                    if at <= i < at + w {
                        assert(self.data@[at + (i - at)] == prefix_bytes_wide(
                            n as u32,
                            w as int,
                        )[i - at]);
                    }
                }
            );
        }
    }

    /// A borrowed, range-checked view of the written prefix
    /// `[0, length)`; never of allocated-but-unwritten memory.
    pub fn as_slice(&self) -> (r: &[u8])
        requires
            self.wf(),
        ensures
            r@ == self@,
    {
        slice_subrange(self.data.as_slice(), 0, self.offset)
    }
}

} // verus!
