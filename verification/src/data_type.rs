//! The data-type registry: a directory from user-chosen type names to the
//! element schema and the reference-only flag of each registered data type.

use vstd::prelude::*;
use crate::element::ElementType;
use crate::strutil::string_eq;

verus! {

/// What the registry records about one data type.
#[derive(Clone, Copy, Debug, PartialEq, Eq, Structural)]
pub struct DataTypeMetadata {
    pub element_type: ElementType,
    /// A reference-only type may only be consumed by reference.
    pub ref_only: bool,
}

/// A directory from type names to [`DataTypeMetadata`].  Registration is
/// append-only; a later registration of the same name shadows the earlier
/// one.
#[derive(Debug)]
pub struct DataTypeRegistry {
    pub entries: Vec<(String, DataTypeMetadata)>,
}

/// The map denoted by an ordered registration list: later entries override
/// earlier ones.
pub open spec fn dtr_map(entries: Seq<(String, DataTypeMetadata)>) -> Map<Seq<char>, DataTypeMetadata>
    decreases entries.len(),
{
    if entries.len() == 0 {
        Map::empty()
    } else {
        dtr_map(entries.drop_last()).insert(entries.last().0@, entries.last().1)
    }
}

/// The most recent registration of a name, if any.
pub open spec fn dtr_lookup(entries: Seq<(String, DataTypeMetadata)>, name: Seq<char>) -> Option<DataTypeMetadata>
    decreases entries.len(),
{
    if entries.len() == 0 {
        None
    } else if entries.last().0@ == name {
        Some(entries.last().1)
    } else {
        dtr_lookup(entries.drop_last(), name)
    }
}

/// The recursive lookup agrees with the map view.
proof fn lemma_dtr_lookup_map(entries: Seq<(String, DataTypeMetadata)>, name: Seq<char>)
    ensures
        dtr_lookup(entries, name) == (if dtr_map(entries).contains_key(name) {
            Some(dtr_map(entries)[name])
        } else {
            None::<DataTypeMetadata>
        }),
    decreases entries.len(),
{
    if entries.len() > 0 {
        lemma_dtr_lookup_map(entries.drop_last(), name);
    }
}

impl View for DataTypeRegistry {
    type V = Map<Seq<char>, DataTypeMetadata>;

    open spec fn view(&self) -> Map<Seq<char>, DataTypeMetadata> {
        dtr_map(self.entries@)
    }
}

impl DataTypeRegistry {
    /// An empty registry.
    pub fn new() -> (r: Self)
        ensures
            r@ == Map::<Seq<char>, DataTypeMetadata>::empty(),
    {
        DataTypeRegistry { entries: Vec::new() }
    }

    /// Registers a data type, shadowing any earlier registration of the
    /// same name.
    pub fn insert(&mut self, name: &str, meta: DataTypeMetadata)
        ensures
            final(self)@ == old(self)@.insert(name@, meta),
    {
        self.entries.push((name.to_owned(), meta));
        proof {
            assert(self.entries@.drop_last() =~= old(self).entries@);
        }
    }

    /// The metadata of the most recent registration of a name, if any.
    pub fn get<'a>(&'a self, name: &str) -> (r: Option<&'a DataTypeMetadata>)
        ensures
            match r {
                Some(m) => self@.contains_key(name@) && *m == self@[name@],
                None => !self@.contains_key(name@),
            },
    {
        proof {
            lemma_dtr_lookup_map(self.entries@, name@);
        }
        let key: String = name.to_owned();
        let mut i: usize = self.entries.len();
        proof {
            assert(self.entries@.take(i as int) =~= self.entries@);
        }
        while i > 0
            invariant
                i <= self.entries.len(),
                key@ == name@,
                dtr_lookup(self.entries@, name@) == dtr_lookup(self.entries@.take(i as int), name@),
            decreases i,
        {
            i = i - 1;
            if string_eq(&self.entries[i].0, &key) {
                proof {
                    assert(self.entries@.take(i as int + 1).last() == self.entries@[i as int]);
                    assert(dtr_lookup(self.entries@.take(i as int + 1), name@) == Some(self.entries@[i as int].1));
                    lemma_dtr_lookup_map(self.entries@, name@);
                }
                return Some(&self.entries[i].1);
            }
            proof {
                assert(self.entries@.take(i as int + 1).drop_last() =~= self.entries@.take(i as int));
            }
        }
        None
    }
}

} // verus!
