use vstd::prelude::*;
use crate::allocator::Allocator;
use crate::converter::{
    Converter, auto_bytes, auto_payload, auto_encodable, lemma_auto_payload_consumed,
    lemma_auto_round_trip, lemma_prefix_transitive,
};
use crate::error::Error;
use crate::length::MAX_MAGNITUDE;

verus! {

/// The bit a collection's registration key sets on top of its element
/// codec's key.
pub const COLLECTION_KEY_FLAG: u64 = 0x8000_0000_0000_0000;

/// The concatenated `encode_auto` encodings of the elements of `vs`.
pub open spec fn seq_enc<E: DeepView, C: Converter<E>>(c: &C, vs: Seq<E::V>) -> Seq<u8>
    decreases vs.len(),
{
    if vs.len() == 0 {
        Seq::empty()
    } else {
        auto_bytes(c.spec_length(), c.enc(vs[0])) + seq_enc(c, vs.skip(1))
    }
}

/// Whether encoding every element of `vs` in turn succeeds, starting
/// from a buffer holding `len` bytes under ceiling `lim`.
pub open spec fn seq_encodable<E: DeepView, C: Converter<E>>(
    c: &C,
    len: int,
    lim: int,
    vs: Seq<E::V>,
) -> bool
    decreases vs.len(),
{
    if vs.len() == 0 {
        true
    } else {
        auto_encodable(c, len, lim, vs[0]) && seq_encodable(
            c,
            len + auto_bytes(c.spec_length(), c.enc(vs[0])).len(),
            lim,
            vs.skip(1),
        )
    }
}

/// The values read when `decode_auto` is applied repeatedly until the
/// bytes run out; `None` when some step fails.
pub open spec fn seq_dec<E: DeepView, C: Converter<E>>(c: &C, bytes: Seq<u8>) -> Option<
    Seq<E::V>,
>
    decreases bytes.len(),
{
    if bytes.len() == 0 {
        Some(Seq::empty())
    } else {
        match auto_payload(c.spec_length(), bytes) {
            Some((payload, consumed)) => if 0 < consumed <= bytes.len() {
                match (c.dec(payload), seq_dec(c, bytes.skip(consumed))) {
                    (Some(v), Some(rest)) => Some(seq![v] + rest),
                    _ => None,
                }
            } else {
                None
            },
            None => None,
        }
    }
}

/// The error the first failing step of `seq_dec` reports.
pub open spec fn seq_dec_err<E: DeepView, C: Converter<E>>(c: &C, bytes: Seq<u8>) -> Error
    decreases bytes.len(),
{
    if bytes.len() == 0 {
        Error::InsufficientData
    } else {
        match auto_payload(c.spec_length(), bytes) {
            Some((payload, consumed)) => if 0 < consumed <= bytes.len() {
                if c.dec(payload) is None {
                    c.dec_err(payload)
                } else {
                    seq_dec_err(c, bytes.skip(consumed))
                }
            } else {
                Error::InsufficientData
            },
            None => Error::InsufficientData,
        }
    }
}

/// Encoding a sequence and one more element is encoding the sequence,
/// then the element.
proof fn lemma_seq_enc_snoc<E: DeepView, C: Converter<E>>(c: &C, vs: Seq<E::V>, v: E::V)
    ensures
        seq_enc(c, vs.push(v)) == seq_enc(c, vs) + auto_bytes(c.spec_length(), c.enc(v)),
    decreases vs.len(),
{
    let head = auto_bytes(c.spec_length(), c.enc(vs.push(v)[0]));
    assert(seq_enc(c, vs.push(v)) == head + seq_enc(c, vs.push(v).skip(1)));
    if vs.len() == 0 {
        assert(vs.push(v)[0] == v);
        assert(vs.push(v).skip(1) =~= Seq::<E::V>::empty());
        assert(seq_enc(c, vs.push(v).skip(1)) == Seq::<u8>::empty());
        assert(seq_enc(c, vs.push(v)) =~= seq_enc(c, vs) + auto_bytes(
            c.spec_length(),
            c.enc(v),
        ));
    } else {
        assert(vs.push(v)[0] == vs[0]);
        assert(vs.push(v).skip(1) =~= vs.skip(1).push(v));
        lemma_seq_enc_snoc(c, vs.skip(1), v);
        assert(seq_enc(c, vs) == auto_bytes(c.spec_length(), c.enc(vs[0])) + seq_enc(
            c,
            vs.skip(1),
        ));
        assert(seq_enc(c, vs.push(v)) =~= seq_enc(c, vs) + auto_bytes(
            c.spec_length(),
            c.enc(v),
        ));
    }
}

/// Decoding what `seq_enc` produced recovers the sequence it encoded.
proof fn lemma_seq_round_trip<E: DeepView, C: Converter<E>>(c: &C, vs: Seq<E::V>)
    requires
        seq_enc(c, vs).len() <= MAX_MAGNITUDE,
    ensures
        seq_dec(c, seq_enc(c, vs)) == Some(vs),
    decreases vs.len(),
{
    if vs.len() == 0 {
        assert(vs =~= Seq::<E::V>::empty());
    } else {
        let head = auto_bytes(c.spec_length(), c.enc(vs[0]));
        let rest = seq_enc(c, vs.skip(1));
        lemma_auto_round_trip(c, vs[0], rest);
        let bytes = head + rest;
        lemma_auto_payload_consumed(c.spec_length(), bytes);
        assert(bytes.skip(head.len() as int) =~= rest);
        lemma_seq_round_trip(c, vs.skip(1));
        assert(seq![vs[0]] + vs.skip(1) =~= vs);
    }
}

/// The codec for homogeneous collections: each element written with
/// the element codec's automatic dispatch, one after another, and read
/// back until the span runs out.
pub struct CollectionConverter<E, C> {
    converter: C,
    _marker: core::marker::PhantomData<E>,
}

impl<E: DeepView, C: Converter<E>> CollectionConverter<E, C> {
    /// The element codec, as seen by contracts.
    pub closed spec fn element(&self) -> C {
        self.converter
    }

    /// Wraps the codec the collection's elements go through.
    pub fn new(converter: C) -> (r: Self)
        ensures
            r.element() == converter,
    {
        CollectionConverter { converter, _marker: core::marker::PhantomData }
    }
}

impl<E: DeepView, C: Converter<E>> crate::interface::Converter for CollectionConverter<E, C> {
    open spec fn spec_length(&self) -> usize {
        0
    }

    open spec fn spec_generic_argument(&self) -> u64 {
        self.element().spec_generic_argument() ^ COLLECTION_KEY_FLAG
    }

    fn length(&self) -> usize {
        0
    }

    fn generic_argument(&self) -> u64 {
        self.converter.generic_argument() ^ COLLECTION_KEY_FLAG
    }
}

impl<E: DeepView, C: Converter<E>> Converter<Vec<E>> for CollectionConverter<E, C> {
    open spec fn enc(&self, vs: Seq<E::V>) -> Seq<u8> {
        seq_enc(&self.element(), vs)
    }

    open spec fn dec(&self, bytes: Seq<u8>) -> Option<Seq<E::V>> {
        seq_dec(&self.element(), bytes)
    }

    open spec fn dec_err(&self, bytes: Seq<u8>) -> Error {
        seq_dec_err(&self.element(), bytes)
    }

    open spec fn encodable(&self, len: int, lim: int, vs: Seq<E::V>) -> bool {
        seq_encodable(&self.element(), len, lim, vs)
    }

    proof fn lemma_enc_width(&self, vs: Seq<E::V>) {
    }

    proof fn lemma_round_trip(&self, vs: Seq<E::V>) {
        lemma_seq_round_trip(&self.element(), vs);
    }

    fn encode(&self, allocator: &mut Allocator, item: &Vec<E>) -> (r: Result<(), Error>) {
        let ghost vs = item.deep_view();
        let ghost len0 = old(allocator).spec_length();
        let ghost lim = old(allocator).spec_max_capacity();
        let n = item.len();
        let mut k: usize = 0;
        proof {
            assert(vs.take(0) =~= Seq::<E::V>::empty());
            assert(vs.skip(0) =~= vs);
            assert(old(allocator)@.is_prefix_of(old(allocator)@));
        }
        while k < n
            invariant
                k <= n,
                n == item@.len(),
                vs == item.deep_view(),
                vs.len() == n,
                allocator.wf(),
                allocator.spec_max_capacity() == lim,
                lim == old(allocator).spec_max_capacity(),
                allocator@ == old(allocator)@ + seq_enc(&self.element(), vs.take(k as int)),
                allocator.spec_length() == len0 + seq_enc(
                    &self.element(),
                    vs.take(k as int),
                ).len(),
                len0 == old(allocator).spec_length(),
                seq_encodable(&self.element(), len0, lim, vs) <==> seq_encodable(
                    &self.element(),
                    allocator.spec_length(),
                    lim,
                    vs.skip(k as int),
                ),
                old(allocator)@.is_prefix_of(allocator@),
            decreases n - k,
        {
            let ghost cur = allocator.spec_length();
            let ghost prev = allocator@;
            let ghost tail = vs.skip(k as int);
            let element = &item[k];
            proof {
                assert(element.deep_view() == vs[k as int]);
                assert(tail.len() != 0);
                assert(tail[0] == vs[k as int]);
                assert(tail.skip(1) =~= vs.skip(k as int + 1));
            }
            match self.converter.encode_auto(allocator, element) {
                Ok(_) => {},
                Err(e) => {
                    proof {
                        assert(!auto_encodable(&self.element(), cur, lim, vs[k as int]));
                        assert(!seq_encodable(&self.element(), cur, lim, tail));
                        lemma_prefix_transitive(old(allocator)@, prev, allocator@);
                    }
                    return Err(e);
                },
            }
            proof {
                assert(vs.take(k as int + 1) =~= vs.take(k as int).push(vs[k as int]));
                lemma_seq_enc_snoc(&self.element(), vs.take(k as int), vs[k as int]);
                assert(allocator@ == old(allocator)@ + seq_enc(
                    &self.element(),
                    vs.take(k as int + 1),
                ));
            }
            k = k + 1;
        }
        proof {
            assert(vs.take(n as int) =~= vs);
            assert(vs.skip(n as int) =~= Seq::<E::V>::empty());
        }
        Ok(())
    }

    fn decode(&self, span: &&[u8]) -> (r: Result<Vec<E>, Error>) {
        let ghost bytes0 = (*span)@;
        let mut result: Vec<E> = Vec::new();
        let mut rest: &[u8] = *span;
        proof {
            assert(result.deep_view() =~= Seq::<E::V>::empty());
        }
        while rest.len() != 0
            invariant
                bytes0 == (*span)@,
                rest@.len() <= bytes0.len(),
                seq_dec(&self.element(), bytes0) is Some <==> seq_dec(
                    &self.element(),
                    rest@,
                ) is Some,
                seq_dec(&self.element(), bytes0) is Some ==> seq_dec(
                    &self.element(),
                    bytes0,
                )->Some_0 == result.deep_view() + seq_dec(&self.element(), rest@)->Some_0,
                seq_dec(&self.element(), bytes0) is None ==> seq_dec_err(
                    &self.element(),
                    bytes0,
                ) == seq_dec_err(&self.element(), rest@),
            decreases rest@.len(),
        {
            let ghost b = rest@;
            let ghost before = result.deep_view();
            match self.converter.decode_auto(&mut rest) {
                Ok(v) => {
                    proof {
                        lemma_auto_payload_consumed(self.element().spec_length(), b);
                    }
                    result.push(v);
                    proof {
                        assert(result.deep_view() =~= before.push(v.deep_view()));
                        let consumed = auto_payload(self.element().spec_length(), b)->Some_0.1;
                        assert(rest@ == b.skip(consumed));
                        if seq_dec(&self.element(), rest@) is Some {
                            assert(seq_dec(&self.element(), b)->Some_0 == seq![v.deep_view()]
                                + seq_dec(&self.element(), rest@)->Some_0);
                            assert(before + (seq![v.deep_view()] + seq_dec(
                                &self.element(),
                                rest@,
                            )->Some_0) =~= result.deep_view() + seq_dec(
                                &self.element(),
                                rest@,
                            )->Some_0);
                        }
                    }
                },
                Err(e) => {
                    proof {
                        if auto_payload(self.element().spec_length(), b) is Some {
                            lemma_auto_payload_consumed(self.element().spec_length(), b);
                        }
                        assert(seq_dec(&self.element(), b) is None);
                        assert(e == seq_dec_err(&self.element(), b));
                    }
                    return Err(e);
                },
            }
        }
        proof {
            assert(rest@.len() == 0);
            assert(seq_dec(&self.element(), rest@) == Some(Seq::<E::V>::empty()));
            if seq_dec(&self.element(), bytes0) is Some {
                assert(seq_dec(&self.element(), bytes0)->Some_0 =~= result.deep_view());
            }
        }
        Ok(result)
    }
}

} // verus!
