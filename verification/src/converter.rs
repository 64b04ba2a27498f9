use vstd::prelude::*;
use vstd::assert_seqs_equal;
use vstd::slice::slice_subrange;
use crate::allocator::{Allocator, ANCHOR_SIZE, anchor_prefix};
use crate::error::Error;
use crate::length::{self, MAX_MAGNITUDE, prefix_size, prefix_bytes, prefix_decode};

verus! {

broadcast use crate::allocator::lemma_view_length;

/// The payload bytes and the total bytes consumed when a
/// length-prefixed region is read from the front of `bytes`; `None`
/// when the prefix is incomplete or announces more bytes than remain.
pub open spec fn framed_payload(bytes: Seq<u8>) -> Option<(Seq<u8>, int)> {
    match prefix_decode(bytes) {
        Some((value, consumed)) => if bytes.len() >= consumed + value {
            Some((bytes.subrange(consumed, consumed + value as int), consumed + value as int))
        } else {
            None
        },
        None => None,
    }
}

/// A payload bracketed by the prefix its anchor leaves in front of it.
pub open spec fn framed_bytes(payload: Seq<u8>) -> Seq<u8> {
    anchor_prefix(payload.len() as int) + payload
}

/// What `encode_auto` appends for a codec of declared width `width`
/// and raw encoding `payload`: the raw encoding when the width is
/// fixed, the length-prefixed region otherwise.
pub open spec fn auto_bytes(width: usize, payload: Seq<u8>) -> Seq<u8> {
    if width != 0 {
        payload
    } else {
        framed_bytes(payload)
    }
}

/// The bytes `decode_auto` hands to `decode` and the bytes it
/// consumes, for a codec of declared width `width`: exactly `width`
/// bytes when the width is fixed, a length-prefixed region otherwise.
pub open spec fn auto_payload(width: usize, bytes: Seq<u8>) -> Option<(Seq<u8>, int)> {
    if width != 0 {
        if bytes.len() >= width {
            Some((bytes.take(width as int), width as int))
        } else {
            None
        }
    } else {
        framed_payload(bytes)
    }
}

/// The generic contract every value codec implements: `length`,
/// `encode` and `decode` are the primitives, and the `*_auto` /
/// `*_with_length_prefix` operations are derived from them once, here.
pub trait Converter<T: DeepView>: Sized + crate::interface::Converter {
    /// The exact byte encoding of a value with deep view `v`.
    spec fn enc(&self, v: T::V) -> Seq<u8>;

    /// The value a span of exactly a value's bytes decodes to; `None`
    /// when the bytes are rejected.
    spec fn dec(&self, bytes: Seq<u8>) -> Option<T::V>;

    /// The error `decode` reports when it rejects `bytes`.
    spec fn dec_err(&self, bytes: Seq<u8>) -> Error;

    /// Whether `encode` succeeds on a buffer holding `len` bytes under
    /// ceiling `lim`.
    spec fn encodable(&self, len: int, lim: int, v: T::V) -> bool;

    /// A fixed-width codec always produces exactly its declared width.
    proof fn lemma_enc_width(&self, v: T::V)
        ensures
            self.spec_length() != 0 ==> self.enc(v).len() == self.spec_length(),
    ;

    /// Round trip: decoding an encoding yields the value it came from.
    proof fn lemma_round_trip(&self, v: T::V)
        requires
            self.enc(v).len() <= MAX_MAGNITUDE,
        ensures
            self.dec(self.enc(v)) == Some(v),
    ;

    /// Appends the raw encoding of `item` to the buffer.
    fn encode(&self, allocator: &mut Allocator, item: &T) -> (r: Result<(), Error>)
        requires
            old(allocator).wf(),
        ensures
            final(allocator).wf(),
            final(allocator).spec_max_capacity() == old(allocator).spec_max_capacity(),
            r is Ok <==> self.encodable(
                old(allocator).spec_length(),
                old(allocator).spec_max_capacity(),
                item.deep_view(),
            ),
            r is Ok ==> final(allocator)@ == old(allocator)@ + self.enc(item.deep_view())
                && final(allocator).spec_length() == old(allocator).spec_length() + self.enc(
                item.deep_view(),
            ).len(),
            r is Err ==> r->Err_0 == Error::CapacityExceeded && old(allocator)@.is_prefix_of(
                final(allocator)@,
            ) && final(allocator).spec_length() >= old(allocator).spec_length(),
    ;

    /// Parses a value from a span of exactly the bytes belonging to
    /// it.
    fn decode(&self, span: &&[u8]) -> (r: Result<T, Error>)
        ensures
            r is Ok <==> self.dec((*span)@) is Some,
            r is Ok ==> r->Ok_0.deep_view() == self.dec((*span)@)->Some_0,
            r is Err ==> r->Err_0 == self.dec_err((*span)@),
    ;

    /// Appends `item` with the size implicit for fixed-width codecs,
    /// and as a self-describing length-prefixed region otherwise.
    fn encode_auto(&self, allocator: &mut Allocator, item: &T) -> (r: Result<(), Error>)
        requires
            old(allocator).wf(),
        ensures
            final(allocator).wf(),
            final(allocator).spec_max_capacity() == old(allocator).spec_max_capacity(),
            r is Ok <==> (if self.spec_length() != 0 {
                self.encodable(
                    old(allocator).spec_length(),
                    old(allocator).spec_max_capacity(),
                    item.deep_view(),
                )
            } else {
                old(allocator).spec_length() + ANCHOR_SIZE <= old(allocator).spec_max_capacity()
                    && self.encodable(
                    old(allocator).spec_length() + ANCHOR_SIZE,
                    old(allocator).spec_max_capacity(),
                    item.deep_view(),
                )
            }),
            r is Ok ==> final(allocator)@ == old(allocator)@ + auto_bytes(
                self.spec_length(),
                self.enc(item.deep_view()),
            ) && final(allocator).spec_length() == old(allocator).spec_length() + auto_bytes(
                self.spec_length(),
                self.enc(item.deep_view()),
            ).len(),
            r is Err ==> r->Err_0 == Error::CapacityExceeded && old(allocator)@.is_prefix_of(
                final(allocator)@,
            ) && final(allocator).spec_length() >= old(allocator).spec_length(),
    {
        if self.length() != 0 {
            self.encode(allocator, item)
        } else {
            self.encode_with_length_prefix(allocator, item)
        }
    }

    /// Appends `item` as a length-prefixed region: opens an anchor,
    /// encodes, and closes the anchor over the payload it measured.
    fn encode_with_length_prefix(&self, allocator: &mut Allocator, item: &T) -> (r: Result<
        (),
        Error,
    >)
        requires
            old(allocator).wf(),
        ensures
            final(allocator).wf(),
            final(allocator).spec_max_capacity() == old(allocator).spec_max_capacity(),
            r is Ok <==> (old(allocator).spec_length() + ANCHOR_SIZE <= old(
                allocator,
            ).spec_max_capacity() && self.encodable(
                old(allocator).spec_length() + ANCHOR_SIZE,
                old(allocator).spec_max_capacity(),
                item.deep_view(),
            )),
            r is Ok ==> final(allocator)@ == old(allocator)@ + framed_bytes(
                self.enc(item.deep_view()),
            ) && final(allocator).spec_length() == old(allocator).spec_length() + framed_bytes(
                self.enc(item.deep_view()),
            ).len(),
            r is Err ==> r->Err_0 == Error::CapacityExceeded && old(allocator)@.is_prefix_of(
                final(allocator)@,
            ) && final(allocator).spec_length() >= old(allocator).spec_length(),
    {
        let anchor = match allocator.anchor() {
            Ok(a) => a,
            Err(e) => {
                proof {
                    assert(old(allocator)@.is_prefix_of(allocator@));
                }
                return Err(e);
            },
        };
        let ghost v1 = allocator@;
        match self.encode(allocator, item) {
            Ok(_) => (),
            Err(e) => {
                proof {
                    assert(old(allocator)@.is_prefix_of(allocator@));
                }
                return Err(e);
            },
        }
        let ghost v2 = allocator@;
        let ghost payload = self.enc(item.deep_view());
        match allocator.finish_anchor(anchor) {
            Ok(_) => {
                proof {
                    let before = old(allocator)@;
                    assert(v2 == v1 + payload);
                    assert(anchor as int == before.len());
                    assert forall|i: int| 0 <= i < anchor as int implies v2.subrange(
                        0,
                        anchor as int,
                    )[i] == before[i] by {
                        assert(v2[i] == (v1 + payload)[i]);
                        assert(v1[i] == before[i]);
                    }
                    assert(v2.subrange(0, anchor as int) =~= before);
                    assert forall|i: int|
                        0 <= i < payload.len() implies v2.subrange(
                        anchor + ANCHOR_SIZE,
                        v2.len() as int,
                    )[i] == payload[i] by {
                        assert(v2[anchor + ANCHOR_SIZE + i] == (v1 + payload)[anchor + ANCHOR_SIZE
                            + i]);
                    }
                    assert(v2.subrange(anchor + ANCHOR_SIZE, v2.len() as int) =~= payload);
                    assert(allocator@ =~= before + framed_bytes(payload));
                }
                Ok(())
            },
            Err(e) => {
                proof {
                    assert(false);
                }
                Err(e)
            },
        }
    }

    /// Reads a value from the front of `span`, consuming exactly the
    /// declared width for fixed-width codecs and a length-prefixed
    /// region otherwise, and advances the span past the bytes read.
    fn decode_auto(&self, span: &mut &[u8]) -> (r: Result<T, Error>)
        ensures
            r is Ok <==> (auto_payload(self.spec_length(), old(span)@) is Some && self.dec(
                auto_payload(self.spec_length(), old(span)@)->Some_0.0,
            ) is Some),
            r is Ok ==> r->Ok_0.deep_view() == self.dec(
                auto_payload(self.spec_length(), old(span)@)->Some_0.0,
            )->Some_0 && final(span)@ == old(span)@.skip(
                auto_payload(self.spec_length(), old(span)@)->Some_0.1,
            ),
            r is Err ==> (if auto_payload(self.spec_length(), old(span)@) is None {
                r->Err_0 == Error::InsufficientData && *final(span) == *old(span)
            } else {
                r->Err_0 == self.dec_err(auto_payload(self.spec_length(), old(span)@)->Some_0.0)
                    && final(span)@ == old(span)@.skip(
                    auto_payload(self.spec_length(), old(span)@)->Some_0.1,
                )
            }),
    {
        let width = self.length();
        if width != 0 {
            if span.len() < width {
                return Err(Error::InsufficientData);
            }
            let head = slice_subrange(*span, 0, width);
            let tail = slice_subrange(*span, width, span.len());
            *span = tail;
            proof {
                assert_seqs_equal!(head@, old(span)@.take(width as int));
                assert_seqs_equal!((*span)@, old(span)@.skip(width as int));
            }
            self.decode(&head)
        } else {
            self.decode_with_length_prefix(span)
        }
    }

    /// Reads a length-prefixed value from the front of `span` and
    /// advances the span past the prefix and the payload.
    fn decode_with_length_prefix(&self, span: &mut &[u8]) -> (r: Result<T, Error>)
        ensures
            r is Ok <==> (framed_payload(old(span)@) is Some && self.dec(
                framed_payload(old(span)@)->Some_0.0,
            ) is Some),
            r is Ok ==> r->Ok_0.deep_view() == self.dec(
                framed_payload(old(span)@)->Some_0.0,
            )->Some_0 && final(span)@ == old(span)@.skip(framed_payload(old(span)@)->Some_0.1),
            r is Err ==> (if framed_payload(old(span)@) is None {
                r->Err_0 == Error::InsufficientData && *final(span) == *old(span)
            } else {
                r->Err_0 == self.dec_err(framed_payload(old(span)@)->Some_0.0) && final(span)@
                    == old(span)@.skip(framed_payload(old(span)@)->Some_0.1)
            }),
    {
        let payload = decode_with_length_prefix(span)?;
        self.decode(&payload)
    }
}

/// Writes the magnitude `number` in its canonical prefix form into
/// freshly assigned space at the end of the buffer.
pub fn encode(allocator: &mut Allocator, number: usize) -> (r: Result<(), Error>)
    requires
        old(allocator).wf(),
    ensures
        final(allocator).wf(),
        final(allocator).spec_max_capacity() == old(allocator).spec_max_capacity(),
        r is Ok <==> (number <= MAX_MAGNITUDE && old(allocator).spec_length() + prefix_size(
            number as int,
        ) <= old(allocator).spec_max_capacity()),
        r is Ok ==> final(allocator)@ == old(allocator)@ + prefix_bytes(number as u32) && final(allocator).spec_length() == old(allocator).spec_length() + prefix_size(number as int),
        r is Err ==> *final(allocator) == *old(allocator) && r->Err_0 == Error::CapacityExceeded,
{
    if number > MAX_MAGNITUDE {
        return Err(Error::CapacityExceeded);
    }
    let width: usize = length::size_of_prefix(number);
    let offset: usize = allocator.assign(width)?;
    let ghost v1 = allocator@;
    allocator.write_prefix_at(offset, number, width);
    proof {
        assert_seqs_equal!(allocator@, old(allocator)@ + prefix_bytes(number as u32), i => {
            assert(allocator@[i] == (v1.subrange(0, offset as int) + prefix_bytes(number as u32)
                + v1.subrange(offset + width, v1.len() as int))[i]);
            if i < offset {
                assert(v1.subrange(0, offset as int)[i] == v1[i]);
                assert(v1[i] == old(allocator)@[i]);
            }
        });
    }
    Ok(())
}

/// Writes the magnitude `number` in its canonical prefix form at the
/// front of a caller-supplied buffer, reporting how many bytes it took.
pub fn encode_direct(span: &mut [u8], number: usize, bytes_written: &mut usize) -> (r: Result<
    (),
    Error,
>)
    ensures
        final(span)@.len() == old(span)@.len(),
        r is Ok <==> (number <= MAX_MAGNITUDE && prefix_size(number as int) <= old(span)@.len()),
        r is Ok ==> ({
            let w = prefix_size(number as int);
            *final(bytes_written) == w && final(span)@ == prefix_bytes(number as u32) + old(
                span,
            )@.subrange(w, old(span)@.len() as int)
        }),
        r is Err ==> final(span)@ == old(span)@ && *final(bytes_written) == *old(bytes_written),
        r is Err ==> r->Err_0 == (if number > MAX_MAGNITUDE {
            Error::CapacityExceeded
        } else {
            Error::InsufficientSpace
        }),
{
    if number > MAX_MAGNITUDE {
        return Err(Error::CapacityExceeded);
    }
    let width: usize = length::size_of_prefix(number);
    if span.len() < width {
        return Err(Error::InsufficientSpace);
    }
    length::write_prefix(span, 0, number, width);
    *bytes_written = width;
    proof {
        assert_seqs_equal!(
            span@,
            prefix_bytes(number as u32) + old(span)@.subrange(width as int, old(span)@.len() as int),
            i => {
                if 0 <= i < width {
                    assert(span@[0 + i] == prefix_bytes(number as u32)[i]);
                }
            }
        );
    }
    Ok(())
}

/// Reads one bare magnitude from the front of `span`, advancing the
/// span past its prefix form.
pub fn decode(span: &mut &[u8]) -> (r: Result<usize, Error>)
    ensures
        r is Ok <==> prefix_decode(old(span)@) is Some,
        r is Ok ==> ({
            let (value, consumed) = prefix_decode(old(span)@)->Some_0;
            r->Ok_0 == value as usize && r->Ok_0 <= MAX_MAGNITUDE && final(span)@ == old(
                span,
            )@.skip(consumed)
        }),
        r is Err ==> *final(span) == *old(span) && r->Err_0 == Error::InsufficientData,
{
    let (value, consumed) = length::read_prefix(*span)?;
    let rest = slice_subrange(*span, consumed, span.len());
    *span = rest;
    proof {
        let ghost pair = prefix_decode(old(span)@)->Some_0;
        assert_seqs_equal!((*span)@, old(span)@.skip(pair.1));
    }
    Ok(value)
}

/// Reads a length prefix from the front of `span`, slices exactly that
/// many following bytes, and advances the span past both.
pub fn decode_with_length_prefix<'a>(span: &mut &'a [u8]) -> (r: Result<&'a [u8], Error>)
    ensures
        r is Ok <==> framed_payload(old(span)@) is Some,
        r is Ok ==> ({
            let (payload, consumed) = framed_payload(old(span)@)->Some_0;
            r->Ok_0@ == payload && final(span)@ == old(span)@.skip(consumed)
        }),
        r is Err ==> *final(span) == *old(span) && r->Err_0 == Error::InsufficientData,
{
    let (value, consumed) = length::read_prefix(*span)?;
    if span.len() - consumed < value {
        return Err(Error::InsufficientData);
    }
    let result = slice_subrange(*span, consumed, consumed + value);
    let rest = slice_subrange(*span, consumed + value, span.len());
    *span = rest;
    proof {
        let ghost pair = framed_payload(old(span)@)->Some_0;
        assert_seqs_equal!((*span)@, old(span)@.skip(pair.1));
    }
    Ok(result)
}

/// Whether `encode_auto` succeeds on a buffer holding `len` bytes
/// under ceiling `lim`.
pub open spec fn auto_encodable<T: DeepView, C: Converter<T>>(
    c: &C,
    len: int,
    lim: int,
    v: T::V,
) -> bool {
    if c.spec_length() != 0 {
        c.encodable(len, lim, v)
    } else {
        len + ANCHOR_SIZE <= lim && c.encodable(len + ANCHOR_SIZE, lim, v)
    }
}

/// Prefixes chain: a prefix of a prefix of `c` is a prefix of `c`.
pub proof fn lemma_prefix_transitive(a: Seq<u8>, b: Seq<u8>, c: Seq<u8>)
    requires
        a.is_prefix_of(b),
        b.is_prefix_of(c),
    ensures
        a.is_prefix_of(c),
{
    assert forall|i: int| 0 <= i < a.len() implies a[i] == c.subrange(0, a.len() as int)[i] by {
        assert(a[i] == b.subrange(0, a.len() as int)[i]);
        assert(b[i] == c.subrange(0, b.len() as int)[i]);
    }
}

/// A successfully read region is never empty and never longer than the
/// bytes it was read from.
pub proof fn lemma_auto_payload_consumed(width: usize, bytes: Seq<u8>)
    requires
        auto_payload(width, bytes) is Some,
    ensures
        0 < auto_payload(width, bytes)->Some_0.1 <= bytes.len(),
{
}

/// Round trip through the length-prefixed form: reading the region
/// `encode_with_length_prefix` wrote recovers the payload and the
/// value, whatever follows it.
pub proof fn lemma_lp_round_trip<T: DeepView, C: Converter<T>>(c: &C, v: T::V, rest: Seq<u8>)
    requires
        c.enc(v).len() <= MAX_MAGNITUDE,
    ensures
        ({
            let bytes = framed_bytes(c.enc(v)) + rest;
            framed_payload(bytes) is Some && framed_payload(bytes)->Some_0.0 == c.enc(v)
                && framed_payload(bytes)->Some_0.1 == framed_bytes(c.enc(v)).len() && c.dec(
                framed_payload(bytes)->Some_0.0,
            ) == Some(v)
        }),
{
    let payload = c.enc(v);
    let magnitude = payload.len() as int;
    let width: int = if magnitude <= crate::allocator::ANCHOR_SHRINK_LIMIT {
        1
    } else {
        4
    };
    let bytes = framed_bytes(payload) + rest;
    length::lemma_prefix_round_trip(magnitude as u32, width, payload + rest);
    assert(bytes =~= length::prefix_bytes_wide(magnitude as u32, width) + (payload + rest));
    assert(bytes.subrange(width, width + magnitude) =~= payload);
    c.lemma_round_trip(v);
}

/// Round trip through the automatic dispatch: reading what
/// `encode_auto` wrote recovers the value, whatever follows it.
pub proof fn lemma_auto_round_trip<T: DeepView, C: Converter<T>>(c: &C, v: T::V, rest: Seq<u8>)
    requires
        c.enc(v).len() <= MAX_MAGNITUDE,
    ensures
        ({
            let bytes = auto_bytes(c.spec_length(), c.enc(v)) + rest;
            auto_payload(c.spec_length(), bytes) is Some && auto_payload(
                c.spec_length(),
                bytes,
            )->Some_0.1 == auto_bytes(c.spec_length(), c.enc(v)).len() && c.dec(
                auto_payload(c.spec_length(), bytes)->Some_0.0,
            ) == Some(v)
        }),
{
    let payload = c.enc(v);
    if c.spec_length() != 0 {
        c.lemma_enc_width(v);
        let bytes = payload + rest;
        assert(bytes.take(c.spec_length() as int) =~= payload);
        c.lemma_round_trip(v);
    } else {
        lemma_lp_round_trip(c, v, rest);
    }
}

} // verus!
