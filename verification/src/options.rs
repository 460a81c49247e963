//! Per-call options: a named bag of element values handed through to an
//! options-accepting script generator.  The compiler itself never reads the
//! bag; it only records it in the trace and passes it on.

use vstd::prelude::*;
use crate::element::{Element, ElementV};
use crate::strutil::string_eq;

verus! {

/// An ordered bag of named element values.
#[derive(Debug)]
pub struct Options {
    pub entries: Vec<(String, Element)>,
}

/// The mathematical value of an [`Options`] bag.
pub struct OptionsV {
    pub entries: Seq<(Seq<char>, ElementV)>,
}

impl View for Options {
    type V = OptionsV;

    open spec fn view(&self) -> OptionsV {
        OptionsV {
            entries: Seq::new(self.entries@.len(), |i: int| (self.entries@[i].0@, self.entries@[i].1@)),
        }
    }
}

impl OptionsV {
    /// The value of the most recent entry with the given name, if any.
    pub open spec fn lookup(self, name: Seq<char>) -> Option<ElementV>
        decreases self.entries.len(),
    {
        if self.entries.len() == 0 {
            None
        } else if self.entries.last().0 == name {
            Some(self.entries.last().1)
        } else {
            OptionsV { entries: self.entries.drop_last() }.lookup(name)
        }
    }
}

impl Options {
    /// An empty bag.
    pub fn new() -> (r: Self)
        ensures
            r@.entries == Seq::<(Seq<char>, ElementV)>::empty(),
    {
        let r = Options { entries: Vec::new() };
        proof {
            assert(r@.entries =~= Seq::<(Seq<char>, ElementV)>::empty());
        }
        r
    }

    /// Appends a named value; a later entry with the same name shadows an
    /// earlier one.
    pub fn set(&mut self, name: &str, value: Element)
        ensures
            final(self)@.entries == old(self)@.entries.push((name@, value@)),
    {
        self.entries.push((name.to_owned(), value));
        proof {
            assert(final(self)@.entries =~= old(self)@.entries.push((name@, value@)));
        }
    }

    /// The value of the most recent entry with the given name, if any.
    pub fn get<'a>(&'a self, name: &str) -> (r: Option<&'a Element>)
        ensures
            match r {
                Some(v) => self@.lookup(name@) == Some(v@),
                None => self@.lookup(name@) is None,
            },
    {
        let key: String = name.to_owned();
        let mut i: usize = self.entries.len();
        proof {
            assert(self@.entries.take(i as int) =~= self@.entries);
        }
        while i > 0
            invariant
                i <= self.entries.len(),
                key@ == name@,
                self@.lookup(name@) == (OptionsV { entries: self@.entries.take(i as int) }).lookup(name@),
            decreases i,
        {
            i = i - 1;
            if string_eq(&self.entries[i].0, &key) {
                proof {
                    assert(self@.entries.take(i as int + 1).last() == self@.entries[i as int]);
                }
                return Some(&self.entries[i].1);
            }
            proof {
                assert(self@.entries.take(i as int + 1).drop_last() =~= self@.entries.take(i as int));
            }
        }
        proof {
            assert(self@.entries.take(0) =~= Seq::<(Seq<char>, ElementV)>::empty());
        }
        None
    }
}

} // verus!
