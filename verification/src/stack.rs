//! The compile-time stack model: a simulation of the target VM's operand
//! stack as an ordered sequence of `(index, width)` entries, bottom to top.
//!
//! The model is a pure bookkeeper; it emits no bytes.  The *relative
//! position* of a live index is the distance, in machine slots, from the
//! current stack top to the deepest slot of that index's entry.

use vstd::prelude::*;
use crate::errors::StackError;

verus! {

/// One entry of the simulated operand stack.
#[derive(Clone, Copy, Debug, PartialEq, Eq, Structural)]
pub struct StackEntry {
    /// The memory index whose value occupies the slots.
    pub idx: usize,
    /// How many machine slots the value occupies.
    pub width: usize,
}

/// The total number of machine slots of a stack.
pub open spec fn slot_sum(s: Seq<StackEntry>) -> int
    decreases s.len(),
{
    if s.len() == 0 {
        0
    } else {
        slot_sum(s.drop_last()) + s.last().width
    }
}

/// The slot total is never negative.
pub proof fn lemma_slot_sum_nonneg(s: Seq<StackEntry>)
    ensures
        slot_sum(s) >= 0,
    decreases s.len(),
{
    if s.len() > 0 {
        lemma_slot_sum_nonneg(s.drop_last());
    }
}

/// Whether an index is live on the stack.
pub open spec fn stack_live(s: Seq<StackEntry>, idx: usize) -> bool
    decreases s.len(),
{
    if s.len() == 0 {
        false
    } else {
        s.last().idx == idx || stack_live(s.drop_last(), idx)
    }
}

/// The relative position of a live index: the distance from the stack top
/// to the deepest slot of its topmost entry; `None` if the index is not
/// live.
pub open spec fn rel_pos_spec(s: Seq<StackEntry>, idx: usize) -> Option<int>
    decreases s.len(),
{
    if s.len() == 0 {
        None
    } else if s.last().idx == idx {
        Some(if s.last().width == 0 { 0int } else { s.last().width - 1 })
    } else {
        match rel_pos_spec(s.drop_last(), idx) {
            Some(p) => Some(p + s.last().width),
            None => None,
        }
    }
}

/// The width of a live index's topmost entry; `None` if not live.
pub open spec fn width_spec(s: Seq<StackEntry>, idx: usize) -> Option<usize>
    decreases s.len(),
{
    if s.len() == 0 {
        None
    } else if s.last().idx == idx {
        Some(s.last().width)
    } else {
        width_spec(s.drop_last(), idx)
    }
}

/// The stack after removing the topmost entry of an index; `None` if not
/// live.
pub open spec fn pull_spec(s: Seq<StackEntry>, idx: usize) -> Option<Seq<StackEntry>>
    decreases s.len(),
{
    if s.len() == 0 {
        None
    } else if s.last().idx == idx {
        Some(s.drop_last())
    } else {
        match pull_spec(s.drop_last(), idx) {
            Some(t) => Some(t.push(s.last())),
            None => None,
        }
    }
}

/// The stack after pushing an entry, or the exact error: pushing fails if
/// the index is already live, or if the slot total would not fit the
/// machine word.
pub open spec fn push_spec(s: Seq<StackEntry>, idx: usize, width: usize) -> Result<
    Seq<StackEntry>,
    StackError,
> {
    if stack_live(s, idx) {
        Err(StackError::AlreadyOnStack)
    } else if slot_sum(s) + width > usize::MAX {
        Err(StackError::TooManySlots)
    } else {
        Ok(s.push(StackEntry { idx, width }))
    }
}

/// An index is live exactly when it has a relative position.
pub proof fn lemma_live_rel_pos(s: Seq<StackEntry>, idx: usize)
    ensures
        stack_live(s, idx) <==> rel_pos_spec(s, idx) is Some,
        stack_live(s, idx) <==> width_spec(s, idx) is Some,
        stack_live(s, idx) <==> pull_spec(s, idx) is Some,
    decreases s.len(),
{
    if s.len() > 0 {
        lemma_live_rel_pos(s.drop_last(), idx);
    }
}

/// Pulling an entry lowers the slot total by its width.
pub proof fn lemma_pull_slot_sum(s: Seq<StackEntry>, idx: usize)
    requires
        pull_spec(s, idx) is Some,
        width_spec(s, idx) is Some,
    ensures
        slot_sum(pull_spec(s, idx).unwrap()) == slot_sum(s) - width_spec(s, idx).unwrap() as int,
    decreases s.len(),
{
    if s.len() > 0 && s.last().idx != idx {
        lemma_live_rel_pos(s.drop_last(), idx);
        lemma_pull_slot_sum(s.drop_last(), idx);
        let t = pull_spec(s.drop_last(), idx).unwrap();
        assert(t.push(s.last()).drop_last() =~= t);
    }
}

/// The simulated operand stack.
pub struct Stack {
    entries: Vec<StackEntry>,
    total: usize,
}

impl View for Stack {
    type V = Seq<StackEntry>;

    closed spec fn view(&self) -> Seq<StackEntry> {
        self.entries@
    }
}

impl Stack {
    /// Well-formedness: the cached slot total is the slot sum.
    pub closed spec fn wf(&self) -> bool {
        self.total as int == slot_sum(self.entries@)
    }

    /// An empty stack.
    pub fn new() -> (r: Self)
        ensures
            r@ == Seq::<StackEntry>::empty(),
            r.wf(),
    {
        let r = Stack { entries: Vec::new(), total: 0 };
        proof {
            assert(r.entries@ =~= Seq::<StackEntry>::empty());
        }
        r
    }

    /// Appends an entry at the top.  Fails if the index is already live or
    /// if the slot total would overflow.
    pub fn push_to_stack(&mut self, idx: usize, width: usize) -> (r: Result<(), StackError>)
        requires
            old(self).wf(),
        ensures
            final(self).wf(),
            match r {
                Ok(()) => push_spec(old(self)@, idx, width) == Ok::<Seq<StackEntry>, StackError>(
                    final(self)@,
                ),
                Err(e) => final(self)@ == old(self)@ && push_spec(old(self)@, idx, width)
                    == Err::<Seq<StackEntry>, StackError>(e),
            },
    {
        proof {
            lemma_live_rel_pos(self.entries@, idx);
        }
        match self.find_from_top(idx) {
            Some(_) => Err(StackError::AlreadyOnStack),
            None => {
                if width > usize::MAX - self.total {
                    proof {
                        lemma_slot_sum_nonneg(self.entries@);
                    }
                    Err(StackError::TooManySlots)
                } else {
                    self.entries.push(StackEntry { idx, width });
                    self.total = self.total + width;
                    proof {
                        assert(self.entries@.drop_last() =~= old(self).entries@);
                    }
                    Ok(())
                }
            },
        }
    }

    /// The vector index of the topmost entry of `idx`, scanning from the
    /// top, if the index is live.
    fn find_from_top(&self, idx: usize) -> (r: Option<usize>)
        ensures
            match r {
                Some(j) => j < self@.len() && self@[j as int].idx == idx && (forall|k: int|
                    j < k < self@.len() ==> (#[trigger] self@[k]).idx != idx) && stack_live(
                    self@,
                    idx,
                ),
                None => !stack_live(self@, idx),
            },
    {
        let mut i: usize = self.entries.len();
        proof {
            assert(self.entries@.take(i as int) =~= self.entries@);
        }
        while i > 0
            invariant
                i <= self.entries.len(),
                stack_live(self@, idx) == stack_live(self@.take(i as int), idx),
                forall|k: int| i <= k < self@.len() ==> (#[trigger] self@[k]).idx != idx,
            decreases i,
        {
            i = i - 1;
            proof {
                assert(self@.take(i as int + 1).last() == self@[i as int]);
                assert(self@.take(i as int + 1).drop_last() =~= self@.take(i as int));
            }
            if self.entries[i].idx == idx {
                return Some(i);
            }
        }
        proof {
            assert(self@.take(0) =~= Seq::<StackEntry>::empty());
        }
        None
    }

    /// The relative position of a live index: the distance from the top to
    /// the deepest slot of its entry.  Fails if the index is not live.
    pub fn get_relative_position(&self, idx: usize) -> (r: Result<usize, StackError>)
        requires
            self.wf(),
        ensures
            match r {
                Ok(p) => rel_pos_spec(self@, idx) == Some(p as int),
                Err(e) => rel_pos_spec(self@, idx) is None && e == StackError::NotOnStack,
            },
    {
        proof {
            lemma_live_rel_pos(self@, idx);
        }
        let mut i: usize = self.entries.len();
        let mut above: usize = 0;
        proof {
            assert(self.entries@.take(i as int) =~= self.entries@);
            lemma_slot_sum_nonneg(self@);
        }
        while i > 0
            invariant
                self.wf(),
                i <= self.entries.len(),
                above as int == slot_sum(self@) - slot_sum(self@.take(i as int)),
                rel_pos_spec(self@, idx) == (match rel_pos_spec(self@.take(i as int), idx) {
                    Some(p) => Some(p + above as int),
                    None => None::<int>,
                }),
            decreases i,
        {
            i = i - 1;
            proof {
                assert(self@.take(i as int + 1).last() == self@[i as int]);
                assert(self@.take(i as int + 1).drop_last() =~= self@.take(i as int));
                lemma_slot_sum_nonneg(self@.take(i as int));
                lemma_slot_sum_bound(self@, i as int);
            }
            let e = self.entries[i];
            if e.idx == idx {
                let p = if e.width == 0 { above } else { above + (e.width - 1) };
                return Ok(p);
            }
            above = above + e.width;
        }
        proof {
            assert(self@.take(0) =~= Seq::<StackEntry>::empty());
        }
        Err(StackError::NotOnStack)
    }

    /// The width of a live index's entry.  Fails if the index is not live.
    pub fn get_length(&self, idx: usize) -> (r: Result<usize, StackError>)
        ensures
            match r {
                Ok(w) => width_spec(self@, idx) == Some(w),
                Err(e) => width_spec(self@, idx) is None && e == StackError::NotOnStack,
            },
    {
        proof {
            lemma_live_rel_pos(self@, idx);
        }
        match self.find_from_top(idx) {
            None => Err(StackError::NotOnStack),
            Some(j) => {
                proof {
                    lemma_width_spec_at(self@, idx, j as int);
                }
                Ok(self.entries[j].width)
            },
        }
    }

    /// Removes the entry of a live index; slots above it shift down.  Fails
    /// if the index is not live.
    pub fn pull(&mut self, idx: usize) -> (r: Result<(), StackError>)
        requires
            old(self).wf(),
        ensures
            final(self).wf(),
            match r {
                Ok(()) => pull_spec(old(self)@, idx) == Some(final(self)@),
                Err(e) => final(self)@ == old(self)@ && pull_spec(old(self)@, idx) is None && e
                    == StackError::NotOnStack,
            },
    {
        proof {
            lemma_live_rel_pos(self@, idx);
        }
        match self.find_from_top(idx) {
            None => Err(StackError::NotOnStack),
            Some(j) => {
                proof {
                    lemma_width_spec_at(self@, idx, j as int);
                    lemma_pull_spec_at(self@, idx, j as int);
                    lemma_pull_slot_sum(self@, idx);
                    lemma_slot_sum_nonneg(pull_spec(self@, idx).unwrap());
                }
                let w = self.entries[j].width;
                self.entries.remove(j);
                self.total = self.total - w;
                Ok(())
            },
        }
    }

    /// The sum of the widths of all live entries.
    pub fn num_live_slots(&self) -> (r: usize)
        requires
            self.wf(),
        ensures
            r as int == slot_sum(self@),
    {
        self.total
    }
}

/// A prefix's slot sum is at most the whole stack's.
pub proof fn lemma_slot_sum_bound(s: Seq<StackEntry>, i: int)
    requires
        0 <= i <= s.len(),
    ensures
        slot_sum(s.take(i)) <= slot_sum(s),
        slot_sum(s.take(i)) >= 0,
    decreases s.len() - i,
{
    lemma_slot_sum_nonneg(s.take(i));
    if i < s.len() {
        lemma_slot_sum_bound(s, i + 1);
        assert(s.take(i + 1).drop_last() =~= s.take(i));
        assert(s.take(i + 1).last() == s[i]);
    } else {
        assert(s.take(i) =~= s);
    }
}

/// The width at the topmost occurrence of an index.
proof fn lemma_width_spec_at(s: Seq<StackEntry>, idx: usize, j: int)
    requires
        0 <= j < s.len(),
        s[j].idx == idx,
        forall|k: int| j < k < s.len() ==> (#[trigger] s[k]).idx != idx,
    ensures
        width_spec(s, idx) == Some(s[j].width),
    decreases s.len(),
{
    if j < s.len() - 1 {
        lemma_width_spec_at(s.drop_last(), idx, j);
    }
}

/// Removing the topmost occurrence of an index realizes the pull.
proof fn lemma_pull_spec_at(s: Seq<StackEntry>, idx: usize, j: int)
    requires
        0 <= j < s.len(),
        s[j].idx == idx,
        forall|k: int| j < k < s.len() ==> (#[trigger] s[k]).idx != idx,
    ensures
        pull_spec(s, idx) == Some(s.remove(j)),
    decreases s.len(),
{
    if j == s.len() - 1 {
        assert(s.remove(j) =~= s.drop_last());
    } else {
        lemma_pull_spec_at(s.drop_last(), idx, j);
        assert(pull_spec(s.drop_last(), idx).unwrap().push(s.last()) =~= s.remove(j));
    }
}

} // verus!
