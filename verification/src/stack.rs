//! The generic typed stack shared by all six value domains.
//!
//! The top of the stack is the most recently pushed element, addressed as
//! depth 0; "depth k" is the element k positions below the top.  Every
//! mutating operation is a no-op on underflow or on an out-of-range depth:
//! evolved programs routinely issue operations against empty stacks, and the
//! language tolerates this silently instead of failing.

use vstd::prelude::*;

verus! {

/// A growable, homogeneous stack of values of one domain.
pub struct Stack<T: Clone> {
    items: Vec<T>,
}

impl<T: Clone> View for Stack<T> {
    type V = Seq<T>;

    /// The abstract contents, bottom first; the top is the last element.
    closed spec fn view(&self) -> Seq<T> {
        self.items@
    }
}

/// A copy of the top element pushed; an empty stack is left as it is.
pub open spec fn seq_dup<T>(s: Seq<T>) -> Seq<T> {
    if s.len() == 0 {
        s
    } else {
        s.push(s.last())
    }
}

/// The top element removed; an empty stack is left as it is.
pub open spec fn seq_pop<T>(s: Seq<T>) -> Seq<T> {
    if s.len() == 0 {
        s
    } else {
        s.drop_last()
    }
}

/// A depth argument popped from the integer stack, clamped to the nearest
/// valid depth of a stack of `len` elements rather than treated as an
/// error.
pub open spec fn clamp_depth(i: int, len: int) -> int
    recommends
        len > 0,
{
    if i < 0 {
        0
    } else if i >= len {
        len - 1
    } else {
        i
    }
}

/// The top two elements exchanged; shorter stacks are left as they are.
pub open spec fn seq_swap<T>(s: Seq<T>) -> Seq<T> {
    if s.len() < 2 {
        s
    } else {
        let n = s.len() as int;
        s.update(n - 1, s[n - 2]).update(n - 2, s[n - 1])
    }
}

/// The element at depth 2 moved to the top, the rest keeping their relative
/// order; stacks shorter than 3 are left as they are.
pub open spec fn seq_rot<T>(s: Seq<T>) -> Seq<T> {
    if s.len() < 3 {
        s
    } else {
        let n = s.len() as int;
        s.subrange(0, n - 3) + seq![s[n - 2], s[n - 1], s[n - 3]]
    }
}

/// The top element removed and reinserted so that it sits at `depth`;
/// out-of-range depths (and depth 0, already the identity) leave the
/// sequence as it is.
pub open spec fn seq_shove<T>(s: Seq<T>, depth: int) -> Seq<T> {
    if depth <= 0 || depth >= s.len() {
        s
    } else {
        let n = s.len() as int;
        s.subrange(0, n - 1 - depth) + seq![s[n - 1]] + s.subrange(n - 1 - depth, n - 1)
    }
}

/// The element at `depth` removed and pushed as the new top; out-of-range
/// depths leave the sequence as it is.
pub open spec fn seq_yank<T>(s: Seq<T>, depth: int) -> Seq<T> {
    if depth < 0 || depth >= s.len() {
        s
    } else {
        let n = s.len() as int;
        s.remove(n - 1 - depth).push(s[n - 1 - depth])
    }
}

/// The element at `depth` copied and pushed as the new top; out-of-range
/// depths leave the sequence as it is.
pub open spec fn seq_yank_dup<T>(s: Seq<T>, depth: int) -> Seq<T> {
    if depth < 0 || depth >= s.len() {
        s
    } else {
        let n = s.len() as int;
        s.push(s[n - 1 - depth])
    }
}

impl<T: Clone> Stack<T> {
    /// An empty stack.
    pub fn new() -> (r: Stack<T>)
        ensures
            r@ == Seq::<T>::empty(),
    {
        Stack { items: Vec::new() }
    }

    /// The number of elements held.
    pub fn len(&self) -> (r: usize)
        ensures
            r == self@.len(),
    {
        self.items.len()
    }

    /// Places `value` at the top.  Always succeeds.
    pub fn push(&mut self, value: T)
        ensures
            final(self)@ == old(self)@.push(value),
    {
        self.items.push(value);
    }

    /// Removes and returns the top element, or `None` when empty.
    pub fn pop(&mut self) -> (r: Option<T>)
        ensures
            old(self)@.len() == 0 ==> r is None && final(self)@ == old(self)@,
            old(self)@.len() > 0 ==> r == Some(old(self)@.last()) && final(self)@ == old(self)@.drop_last(),
    {
        self.items.pop()
    }

    /// A reference to the element at `depth` (depth 0 = top) without
    /// removing it; `None` when `depth` is out of range.
    pub fn get(&self, depth: usize) -> (r: Option<&T>)
        ensures
            depth < self@.len() ==> r is Some && *r->0 == self@[self@.len() - 1 - depth],
            depth >= self@.len() ==> r is None,
    {
        let n = self.items.len();
        if depth < n {
            Some(&self.items[n - 1 - depth])
        } else {
            None
        }
    }

    /// Pushes a copy of the top element; a no-op when empty.
    pub fn dup(&mut self)
        ensures
            old(self)@.len() == 0 ==> final(self)@ == old(self)@,
            old(self)@.len() > 0 ==> exists|c: T|
                cloned::<T>(old(self)@.last(), c) && final(self)@ == old(self)@.push(c),
    {
        let n = self.items.len();
        if n > 0 {
            let c = self.items[n - 1].clone();
            self.items.push(c);
        }
    }

    /// Removes every element.
    pub fn flush(&mut self)
        ensures
            final(self)@ == Seq::<T>::empty(),
    {
        self.items = Vec::new();
    }

    /// Exchanges the top two elements; a no-op with fewer than 2.
    pub fn swap(&mut self)
        ensures
            final(self)@ == seq_swap(old(self)@),
    {
        let n = self.items.len();
        if n >= 2 {
            let x = self.items.remove(n - 2);
            self.items.push(x);
            proof {
                assert(self@ =~= seq_swap(old(self)@));
            }
        }
    }

    /// Moves the element at depth 2 to the top, preserving the relative
    /// order of the others; a no-op with fewer than 3.
    pub fn rot(&mut self)
        ensures
            final(self)@ == seq_rot(old(self)@),
    {
        let n = self.items.len();
        if n >= 3 {
            let x = self.items.remove(n - 3);
            self.items.push(x);
            proof {
                assert(self@ =~= seq_rot(old(self)@));
            }
        }
    }

    /// Removes the top element and reinserts it at `depth`; a no-op when
    /// `depth` is 0 (the identity) or out of range.
    pub fn shove(&mut self, depth: usize)
        ensures
            final(self)@ == seq_shove(old(self)@, depth as int),
    {
        let n = self.items.len();
        if depth > 0 && depth < n {
            if let Some(x) = self.items.pop() {
                self.items.insert(n - 1 - depth, x);
                proof {
                    assert(self@ =~= seq_shove(old(self)@, depth as int));
                }
            }
        }
    }

    /// Removes the element at `depth` and pushes it as the new top; a no-op
    /// when `depth` is out of range.
    pub fn yank(&mut self, depth: usize)
        ensures
            final(self)@ == seq_yank(old(self)@, depth as int),
    {
        let n = self.items.len();
        if depth < n {
            let x = self.items.remove(n - 1 - depth);
            self.items.push(x);
        }
    }

    /// Copies the element at `depth` and pushes the copy as the new top;
    /// a no-op when `depth` is out of range.  The copy stands to the
    /// original as the element type's `clone` promises.
    pub fn yank_dup(&mut self, depth: usize)
        ensures
            (depth as int) >= old(self)@.len() ==> final(self)@ == old(self)@,
            (depth as int) < old(self)@.len() ==> exists|c: T|
                cloned::<T>(old(self)@[old(self)@.len() - 1 - depth], c) && final(self)@
                    == old(self)@.push(c),
    {
        let n = self.items.len();
        if depth < n {
            let c = self.items[n - 1 - depth].clone();
            self.items.push(c);
        }
    }
}

/// No-op law: every mutating stack operation leaves an empty stack as it
/// is, and a depth-taking operation leaves any stack as it is when its
/// depth is out of range.
pub proof fn lemma_no_op_on_underflow<T>(s: Seq<T>, depth: int)
    ensures
        s.len() == 0 ==> seq_dup(s) == s && seq_pop(s) == s && seq_swap(s) == s && seq_rot(s)
            == s,
        s.len() < 2 ==> seq_swap(s) == s,
        s.len() < 3 ==> seq_rot(s) == s,
        depth >= s.len() ==> seq_shove(s, depth) == s && seq_yank(s, depth) == s && seq_yank_dup(
            s,
            depth,
        ) == s,
        depth < 0 ==> seq_shove(s, depth) == s && seq_yank(s, depth) == s && seq_yank_dup(s, depth)
            == s,
{
}

/// Round-trip law: pushing `v` and popping returns `v` and restores the
/// stack, in every domain.
pub proof fn lemma_push_pop_round_trip<T>(s: Seq<T>, v: T)
    ensures
        s.push(v).last() == v,
        s.push(v).drop_last() == s,
{
    assert(s.push(v).drop_last() =~= s);
}

/// Rotation law: three rotations return a 3-element stack to its original
/// order.
pub proof fn lemma_rotate_thrice<T>(s: Seq<T>)
    requires
        s.len() == 3,
    ensures
        seq_rot(seq_rot(seq_rot(s))) == s,
{
    assert(seq_rot(seq_rot(seq_rot(s))) =~= s);
}

} // verus!
