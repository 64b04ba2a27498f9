use vstd::prelude::*;
use crate::interface;
use crate::interface::Generator as _;

verus! {

/// The registry contents a run of registrations leaves behind: the
/// last registration for a key wins.
pub open spec fn map_of<C>(entries: Seq<(u64, C)>) -> Map<u64, C>
    decreases entries.len(),
{
    if entries.len() == 0 {
        Map::empty()
    } else {
        map_of(entries.drop_last()).insert(entries.last().0, entries.last().1)
    }
}

/// The capability table from type keys to shared codec instances,
/// consulted by composite codecs to resolve element codecs at run
/// time.
pub struct Generator<C> {
    converters: Vec<(u64, C)>,
}

impl<C: interface::Converter> Generator<C> {
    /// Creates an empty registry.
    pub fn new() -> (r: Self)
        ensures
            r.spec_converters() == Map::<u64, C>::empty(),
    {
        Generator { converters: Vec::new() }
    }
}

impl<C: interface::Converter> interface::Generator<C> for Generator<C> {
    closed spec fn spec_converters(&self) -> Map<u64, C> {
        map_of(self.converters@)
    }

    fn add_converter(&mut self, converter: C) {
        let ghost snapshot = converter;
        let key = converter.generic_argument();
        self.converters.push((key, converter));
        proof {
            assert(self.converters@.drop_last() =~= old(self).converters@);
            assert(self.converters@.last() == (key, snapshot));
        }
    }

    fn get_converter(&self, key: u64) -> (r: Option<&C>) {
        let n = self.converters.len();
        let mut i: usize = n;
        proof {
            assert(self.converters@.take(n as int) =~= self.converters@);
        }
        while i > 0
            invariant
                i <= n,
                n == self.converters@.len(),
                map_of(self.converters@).contains_key(key) <==> map_of(
                    self.converters@.take(i as int),
                ).contains_key(key),
                map_of(self.converters@).contains_key(key) ==> map_of(self.converters@)[key]
                    == map_of(self.converters@.take(i as int))[key],
            decreases i,
        {
            proof {
                assert(self.converters@.take(i as int).drop_last() =~= self.converters@.take(
                    i as int - 1,
                ));
                assert(self.converters@.take(i as int).last() == self.converters@[i as int - 1]);
            }
            let entry = &self.converters[i - 1];
            if entry.0 == key {
                return Some(&entry.1);
            }
            i = i - 1;
        }
        proof {
            assert(self.converters@.take(0) =~= Seq::<(u64, C)>::empty());
        }
        None
    }
}

} // verus!
