//! The execution state: six typed stacks and the name bindings.
//!
//! The exec stack is distinguished: it is both data storage and control
//! flow, and the item at its top is the next thing to do.  The code stack
//! stores programs as manipulable data.  The bindings map names to program
//! trees, so that a bound name literal, when encountered, pushes its
//! definition onto the exec stack; later bindings of a name shadow earlier
//! ones.

use crate::program::{pview, pview_seq, ProgView, Program};
use crate::stack::Stack;
use crate::value::Real;
use vstd::prelude::*;

verus! {

/// The abstract model of the whole execution state.  Stacks are sequences
/// with the top last; programs appear as their rose-tree models.
#[verifier::ext_equal]
pub ghost struct StateView {
    pub booleans: Seq<bool>,
    pub code: Seq<ProgView>,
    pub execs: Seq<ProgView>,
    pub floats: Seq<Real>,
    pub integers: Seq<i64>,
    pub names: Seq<u64>,
    pub bindings: Seq<(u64, ProgView)>,
    pub name_quote: bool,
}

/// The models of a binding list, in order.
pub open spec fn bview_seq(s: Seq<(u64, Program)>) -> Seq<(u64, ProgView)>
    decreases s,
{
    if s.len() == 0 {
        Seq::empty()
    } else {
        seq![(s[0].0, pview(s[0].1))] + bview_seq(s.drop_first())
    }
}

/// `bview_seq` maps the view over the bindings elementwise.
pub proof fn lemma_bview_seq(s: Seq<(u64, Program)>)
    ensures
        bview_seq(s).len() == s.len(),
        forall|i: int|
            0 <= i < s.len() ==> bview_seq(s)[i] == (s[i].0, pview(s[i].1)),
    decreases s,
{
    if s.len() > 0 {
        lemma_bview_seq(s.drop_first());
        assert forall|i: int|
            0 <= i < s.len() implies bview_seq(s)[i] == (s[i].0, pview(s[i].1)) by {
            if i > 0 {
                assert(bview_seq(s)[i] == bview_seq(s.drop_first())[i - 1]);
                assert(s.drop_first()[i - 1] == s[i]);
            }
        }
    }
}

/// The definition bound to `n`, with later bindings shadowing earlier ones.
pub open spec fn lookup(bs: Seq<(u64, ProgView)>, n: u64) -> Option<ProgView>
    decreases bs,
{
    if bs.len() == 0 {
        None
    } else if bs.last().0 == n {
        Some(bs.last().1)
    } else {
        lookup(bs.drop_last(), n)
    }
}

/// The execution state of one run.
pub struct State {
    pub boolean_stack: Stack<bool>,
    pub code_stack: Stack<Program>,
    pub exec_stack: Stack<Program>,
    pub float_stack: Stack<Real>,
    pub integer_stack: Stack<i64>,
    pub name_stack: Stack<u64>,
    pub bindings: Vec<(u64, Program)>,
    pub name_quote: bool,
}

impl View for State {
    type V = StateView;

    open spec fn view(&self) -> StateView {
        StateView {
            booleans: self.boolean_stack@,
            code: pview_seq(self.code_stack@),
            execs: pview_seq(self.exec_stack@),
            floats: self.float_stack@,
            integers: self.integer_stack@,
            names: self.name_stack@,
            bindings: bview_seq(self.bindings@),
            name_quote: self.name_quote,
        }
    }
}

/// The model of a state with everything empty and quoting off.
pub open spec fn empty_state_view() -> StateView {
    StateView {
        booleans: Seq::empty(),
        code: Seq::empty(),
        execs: Seq::empty(),
        floats: Seq::empty(),
        integers: Seq::empty(),
        names: Seq::empty(),
        bindings: Seq::empty(),
        name_quote: false,
    }
}

impl State {
    /// A fresh state: every stack empty, nothing bound, quoting off.
    pub fn new() -> (r: State)
        ensures
            r@ == empty_state_view(),
    {
        let r = State {
            boolean_stack: Stack::new(),
            code_stack: Stack::new(),
            exec_stack: Stack::new(),
            float_stack: Stack::new(),
            integer_stack: Stack::new(),
            name_stack: Stack::new(),
            bindings: Vec::new(),
            name_quote: false,
        };
        proof {
            assert(r@ =~~= empty_state_view());
        }
        r
    }

    /// Binds `name` to `definition`, shadowing any earlier binding.
    pub fn bind(&mut self, name: u64, definition: Program)
        ensures
            final(self)@ == (StateView {
                bindings: old(self)@.bindings.push((name, definition@)),
                ..old(self)@
            }),
    {
        proof {
            lemma_bview_seq(self.bindings@);
        }
        self.bindings.push((name, definition));
        proof {
            lemma_bview_seq(self.bindings@);
            assert(bview_seq(self.bindings@) =~= bview_seq(old(self).bindings@).push(
                (name, pview(definition)),
            ));
            assert(self@ =~~= (StateView {
                bindings: old(self)@.bindings.push((name, pview(definition))),
                ..old(self)@
            }));
        }
    }

    /// A copy of the definition bound to `name`, or `None` when unbound.
    pub fn lookup_binding(&self, name: u64) -> (r: Option<Program>)
        ensures
            (r is None) == (lookup(self@.bindings, name) is None),
            r matches Some(p) ==> lookup(self@.bindings, name) == Some(p@),
    {
        proof {
            lemma_bview_seq(self.bindings@);
        }
        let ghost bs = bview_seq(self.bindings@);
        let mut k: usize = self.bindings.len();
        proof {
            assert(bs.take(self.bindings@.len() as int) =~= bs);
        }
        while k > 0
            invariant
                k <= self.bindings@.len(),
                bs == bview_seq(self.bindings@),
                bs.len() == self.bindings@.len(),
                forall|i: int|
                    0 <= i < self.bindings@.len() ==> bs[i] == (
                    self.bindings@[i].0,
                    pview(self.bindings@[i].1),
                ),
                lookup(bs, name) == lookup(bs.take(k as int), name),
            decreases k,
        {
            proof {
                assert(bs.take(k as int).last() == bs[k - 1]);
                assert(bs.take(k as int).drop_last() =~= bs.take(k - 1));
            }
            if self.bindings[k - 1].0 == name {
                let p = self.bindings[k - 1].1.clone();
                return Some(p);
            }
            k -= 1;
        }
        proof {
            assert(bs.take(0) =~= Seq::<(u64, ProgView)>::empty());
        }
        None
    }
}

} // verus!
