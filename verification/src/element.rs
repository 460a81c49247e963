//! Tagged runtime values and their schemas.
//!
//! An [`Element`] is a value held in DSL memory: a single machine integer, a
//! fixed-length vector of integers, a single byte string, or a fixed-length
//! vector of byte strings.  An [`ElementType`] is the schema of an element;
//! its width is the number of machine stack slots the value occupies at
//! runtime.

use vstd::prelude::*;

verus! {

/// The schema of an element: the same four shapes as [`Element`], carrying
/// the vector length for vector shapes.
#[derive(Clone, Copy, Debug, PartialEq, Eq, Structural)]
pub enum ElementType {
    Num,
    ManyNum(usize),
    Str,
    ManyStr(usize),
}

impl ElementType {
    /// Width in machine stack slots: 1 for scalar shapes, the vector length
    /// for vector shapes.
    pub open spec fn width(self) -> usize {
        match self {
            ElementType::Num => 1,
            ElementType::ManyNum(n) => n,
            ElementType::Str => 1,
            ElementType::ManyStr(n) => n,
        }
    }

    /// Width in machine stack slots of a value of this schema.
    pub fn len(&self) -> (r: usize)
        ensures
            r == self.width(),
    {
        match self {
            ElementType::Num => 1,
            ElementType::ManyNum(n) => *n,
            ElementType::Str => 1,
            ElementType::ManyStr(n) => *n,
        }
    }
}

/// A tagged runtime value.
#[derive(Debug)]
pub enum Element {
    Num(i32),
    ManyNum(Vec<i32>),
    Str(Vec<u8>),
    ManyStr(Vec<Vec<u8>>),
}

/// The mathematical value of an [`Element`].
pub enum ElementV {
    Num(i32),
    ManyNum(Seq<i32>),
    Str(Seq<u8>),
    ManyStr(Seq<Seq<u8>>),
}

impl View for Element {
    type V = ElementV;

    open spec fn view(&self) -> ElementV {
        match self {
            Element::Num(v) => ElementV::Num(*v),
            Element::ManyNum(v) => ElementV::ManyNum(v@),
            Element::Str(v) => ElementV::Str(v@),
            Element::ManyStr(v) => ElementV::ManyStr(v.deep_view()),
        }
    }
}

impl DeepView for Element {
    type V = ElementV;

    open spec fn deep_view(&self) -> ElementV {
        self.view()
    }
}

impl ElementV {
    /// Number of machine stack slots the value occupies.
    pub open spec fn slot_count(self) -> int {
        match self {
            ElementV::Num(_) => 1,
            ElementV::ManyNum(s) => s.len() as int,
            ElementV::Str(_) => 1,
            ElementV::ManyStr(s) => s.len() as int,
        }
    }

    /// Whether the value fits a schema: the tags agree and, for vector
    /// shapes, the length equals the declared one.
    pub open spec fn matches_type(self, t: ElementType) -> bool {
        match (self, t) {
            (ElementV::Num(_), ElementType::Num) => true,
            (ElementV::ManyNum(s), ElementType::ManyNum(n)) => s.len() == n,
            (ElementV::Str(_), ElementType::Str) => true,
            (ElementV::ManyStr(s), ElementType::ManyStr(n)) => s.len() == n,
            _ => false,
        }
    }
}

impl Element {
    /// Whether the value fits the given schema.
    pub fn match_type(&self, element_type: &ElementType) -> (r: bool)
        ensures
            r == self@.matches_type(*element_type),
    {
        match (self, element_type) {
            (Element::Num(_), ElementType::Num) => true,
            (Element::ManyNum(v), ElementType::ManyNum(l)) => v.len() == *l,
            (Element::Str(_), ElementType::Str) => true,
            (Element::ManyStr(v), ElementType::ManyStr(l)) => v.len() == *l,
            _ => false,
        }
    }

    /// Number of machine stack slots the value occupies.
    pub fn len(&self) -> (r: usize)
        ensures
            r == self@.slot_count(),
    {
        match self {
            Element::Num(_) => 1,
            Element::ManyNum(v) => v.len(),
            Element::Str(_) => 1,
            Element::ManyStr(v) => v.len(),
        }
    }
}

fn clone_num_vec(v: &Vec<i32>) -> (r: Vec<i32>)
    ensures
        r@ == v@,
{
    let mut r: Vec<i32> = Vec::new();
    let mut i: usize = 0;
    while i < v.len()
        invariant
            i <= v.len(),
            r@ == v@.take(i as int),
        decreases v.len() - i,
    {
        r.push(v[i]);
        i = i + 1;
        proof {
            assert(r@ =~= v@.take(i as int));
        }
    }
    proof {
        assert(v@.take(v@.len() as int) =~= v@);
    }
    r
}

fn clone_byte_vec(v: &Vec<u8>) -> (r: Vec<u8>)
    ensures
        r@ == v@,
{
    let mut r: Vec<u8> = Vec::new();
    let mut i: usize = 0;
    while i < v.len()
        invariant
            i <= v.len(),
            r@ == v@.take(i as int),
        decreases v.len() - i,
    {
        r.push(v[i]);
        i = i + 1;
        proof {
            assert(r@ =~= v@.take(i as int));
        }
    }
    proof {
        assert(v@.take(v@.len() as int) =~= v@);
    }
    r
}

fn clone_str_vec(v: &Vec<Vec<u8>>) -> (r: Vec<Vec<u8>>)
    ensures
        r.deep_view() == v.deep_view(),
{
    let mut r: Vec<Vec<u8>> = Vec::new();
    let mut i: usize = 0;
    while i < v.len()
        invariant
            i <= v.len(),
            r@.len() == i,
            forall|j: int| 0 <= j < i ==> r@[j]@ == v@[j]@,
        decreases v.len() - i,
    {
        r.push(clone_byte_vec(&v[i]));
        i = i + 1;
    }
    proof {
        assert(r.deep_view() =~= v.deep_view());
    }
    r
}

impl Clone for Element {
    /// Clones the value; the clone has the same mathematical value.
    fn clone(&self) -> (r: Self)
        ensures
            r@ == self@,
    {
        match self {
            Element::Num(v) => Element::Num(*v),
            Element::ManyNum(v) => Element::ManyNum(clone_num_vec(v)),
            Element::Str(v) => Element::Str(clone_byte_vec(v)),
            Element::ManyStr(v) => Element::ManyStr(clone_str_vec(v)),
        }
    }
}

} // verus!
