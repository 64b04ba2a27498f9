use vstd::prelude::*;

verus! {

/// The type-independent face of every value codec.
///
/// A codec declares a byte width (`length`, with 0 meaning
/// variable-length) and a registration key that stands for the value
/// type it converts.
pub trait Converter {
    /// The declared byte width, as seen by contracts.
    spec fn spec_length(&self) -> usize;

    /// The registration key, as seen by contracts.
    spec fn spec_generic_argument(&self) -> u64;

    /// The declared byte width: 0 for variable-length codecs, otherwise
    /// exactly the number of bytes every value of the converted type
    /// occupies.
    fn length(&self) -> (r: usize)
        ensures
            r == self.spec_length(),
    ;

    /// A stable, reflection-free key identifying the converted type,
    /// assigned at registration time.
    fn generic_argument(&self) -> (r: u64)
        ensures
            r == self.spec_generic_argument(),
    ;
}

/// A registry from type keys to shared codec instances.
///
/// Composite codecs use such a registry to resolve nested element
/// codecs at run time; the last registration for a key wins.
pub trait Generator<C: Converter> {
    /// The registry's contents, as seen by contracts.
    spec fn spec_converters(&self) -> Map<u64, C>;

    /// Registers `converter` under its own key, replacing any earlier
    /// registration for that key.
    fn add_converter(&mut self, converter: C)
        ensures
            final(self).spec_converters() == old(self).spec_converters().insert(
                converter.spec_generic_argument(),
                converter,
            ),
    ;

    /// Looks up the codec registered under `key`, if any.
    fn get_converter(&self, key: u64) -> (r: Option<&C>)
        ensures
            r is Some <==> self.spec_converters().dom().contains(key),
            r is Some ==> *r->0 == self.spec_converters()[key],
    ;
}

} // verus!
