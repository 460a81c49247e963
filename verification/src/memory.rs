//! Memory entries: a typed value together with the name of its data type
//! and an optional description.

use vstd::prelude::*;
use crate::element::{Element, ElementV};

verus! {

/// One cell of DSL memory.
#[derive(Debug)]
pub struct MemoryEntry {
    pub data_type: String,
    pub data: Element,
    pub description: Option<String>,
}

/// The mathematical value of a [`MemoryEntry`].
pub struct MemoryEntryV {
    pub data_type: Seq<char>,
    pub data: ElementV,
    pub description: Option<Seq<char>>,
}

impl View for MemoryEntry {
    type V = MemoryEntryV;

    open spec fn view(&self) -> MemoryEntryV {
        MemoryEntryV {
            data_type: self.data_type@,
            data: self.data@,
            description: match self.description {
                Some(d) => Some(d@),
                None => None,
            },
        }
    }
}

impl DeepView for MemoryEntry {
    type V = MemoryEntryV;

    open spec fn deep_view(&self) -> MemoryEntryV {
        self.view()
    }
}

impl MemoryEntry {
    /// A new entry without a description.
    pub fn new(data_type: &str, data: Element) -> (r: Self)
        ensures
            r@.data_type == data_type@,
            r@.data == data@,
            r@.description is None,
    {
        MemoryEntry { data_type: data_type.to_owned(), data, description: None }
    }

    /// A new entry with a description.
    pub fn new_with_description(data_type: &str, data: Element, description: &str) -> (r: Self)
        ensures
            r@.data_type == data_type@,
            r@.data == data@,
            r@.description == Some(description@),
    {
        MemoryEntry {
            data_type: data_type.to_owned(),
            data,
            description: Some(description.to_owned()),
        }
    }
}

impl Clone for MemoryEntry {
    /// Clones the entry; the clone has the same mathematical value.
    fn clone(&self) -> (r: Self)
        ensures
            r@ == self@,
    {
        MemoryEntry {
            data_type: self.data_type.clone(),
            data: self.data.clone(),
            description: match &self.description {
                Some(d) => Some(d.clone()),
                None => None,
            },
        }
    }
}

/// Clones a vector of entries; the clone has the same mathematical value.
pub fn clone_entries(v: &Vec<MemoryEntry>) -> (r: Vec<MemoryEntry>)
    ensures
        r.deep_view() == v.deep_view(),
{
    let mut r: Vec<MemoryEntry> = Vec::new();
    let mut i: usize = 0;
    while i < v.len()
        invariant
            i <= v.len(),
            r@.len() == i,
            forall|j: int| 0 <= j < i ==> r@[j]@ == v@[j]@,
        decreases v.len() - i,
    {
        r.push(v[i].clone());
        i = i + 1;
    }
    proof {
        assert(r.deep_view() =~= v.deep_view());
    }
    r
}

} // verus!
