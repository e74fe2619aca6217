//! The homoiconic program representation: code as data.
//!
//! A program node is an instruction tag, a literal value, or an ordered list
//! of child nodes; a tree is finite and acyclic, and a list exclusively owns
//! its children.  The mathematical model of a node is [`ProgView`], a rose
//! tree over `Seq`, reached through the `@` view operator; every contract
//! about programs speaks of that model.

use crate::value::{int_plus, Real};
use vstd::prelude::*;

verus! {

/// The boolean-domain instruction vocabulary.
#[derive(Clone, Copy, PartialEq, Eq, Structural, Debug)]
pub enum Boolean {
    Eq,
    And,
    Define,
    Dup,
    Flush,
    FromFloat,
    FromInteger,
    Not,
    Or,
    Pop,
    Rand,
    Rot,
    Shove,
    StackDepth,
    Swap,
    Yank,
    YankDup,
}

/// The code-domain instruction vocabulary.
#[derive(Clone, Copy, PartialEq, Eq, Structural, Debug)]
pub enum Code {
    Eq,
    Append,
    Atom,
    Car,
    Cdr,
    Cons,
    Container,
    Contains,
    Define,
    Definition,
    Discrepancy,
    Do,
    DoStar,
    DoStarCount,
    DoStarRange,
    DoStarTimes,
    Dup,
    Extract,
    Flush,
    FromBoolean,
    FromFloat,
    FromInteger,
    FromName,
    If,
    Insert,
    Instructions,
    Length,
    List,
    Member,
    Noop,
    Nth,
    NthCdr,
    Null,
    Pop,
    Position,
    Quote,
    Rand,
    Rot,
    Shove,
    Size,
    StackDepth,
    Subst,
    Swap,
    Yank,
    YankDup,
}

/// The exec-domain instruction vocabulary, including the combinators.
#[derive(Clone, Copy, PartialEq, Eq, Structural, Debug)]
pub enum Exec {
    Eq,
    Define,
    DoStarCount,
    DoStarRange,
    DoStarTimes,
    Dup,
    Flush,
    If,
    K,
    Pop,
    Rot,
    S,
    Shove,
    StackDepth,
    Swap,
    Y,
    Yank,
    YankDup,
}

/// The float-domain instruction vocabulary.
#[derive(Clone, Copy, PartialEq, Eq, Structural, Debug)]
pub enum Float {
    Mod,
    Times,
    Plus,
    Minus,
    Divide,
    LessThan,
    Eq,
    GreaterThan,
    Cosine,
    Define,
    Dup,
    Flush,
    FromBoolean,
    FromInteger,
    Max,
    Min,
    Pop,
    Rand,
    Rot,
    Shove,
    Sine,
    Swap,
    Tangent,
    Yank,
    YankDup,
}

/// The integer-domain instruction vocabulary.
#[derive(Clone, Copy, PartialEq, Eq, Structural, Debug)]
pub enum Integer {
    Mod,
    Times,
    Plus,
    Minus,
    Divide,
    LessThan,
    Eq,
    GreaterThan,
    Define,
    Dup,
    Flush,
    FromBoolean,
    FromFloat,
    Max,
    Min,
    Pop,
    Rand,
    Rot,
    Shove,
    StackDepth,
    Swap,
    Yank,
    YankDup,
}

/// The name-domain instruction vocabulary.  Names are interned identifiers;
/// the external parser or generator chooses the interning.
#[derive(Clone, Copy, PartialEq, Eq, Structural, Debug)]
pub enum Name {
    Eq,
    Dup,
    Flush,
    Pop,
    Quote,
    Rand,
    RandBoundName,
    Rot,
    Shove,
    StackDepth,
    Swap,
    Yank,
    YankDup,
}

/// One instruction tag, drawn from one of the six closed vocabularies.
#[derive(Clone, Copy, PartialEq, Eq, Structural, Debug)]
pub enum Instruction {
    Boolean(Boolean),
    Code(Code),
    Exec(Exec),
    Float(Float),
    Integer(Integer),
    Name(Name),
}

/// An immutable literal of one scalar domain.  Code and exec literals do not
/// exist as a separate kind: a quoted sub-tree is a program node itself.
#[derive(Clone, Copy, PartialEq, Eq, Structural, Debug)]
pub enum Literal {
    Boolean(bool),
    Float(Real),
    Integer(i64),
    Name(u64),
}

/// A program node: an instruction, a literal, or a list of children.
#[derive(Debug)]
pub enum Program {
    Instruction(Instruction),
    Literal(Literal),
    List(Vec<Program>),
}

/// The mathematical model of a program node: the same tree over `Seq`.
#[verifier::ext_equal]
pub ghost enum ProgView {
    Instruction(Instruction),
    Literal(Literal),
    List(Seq<ProgView>),
}

/// The model of one node.
pub open spec fn pview(p: Program) -> ProgView
    decreases p,
{
    match p {
        Program::Instruction(i) => ProgView::Instruction(i),
        Program::Literal(l) => ProgView::Literal(l),
        Program::List(cs) => ProgView::List(pview_seq(cs@)),
    }
}

/// The models of a sequence of nodes, in order.
pub open spec fn pview_seq(s: Seq<Program>) -> Seq<ProgView>
    decreases s,
{
    if s.len() == 0 {
        Seq::empty()
    } else {
        seq![pview(s[0])] + pview_seq(s.drop_first())
    }
}

/// `pview_seq` maps the view over the sequence elementwise.
pub broadcast proof fn lemma_pview_seq(s: Seq<Program>)
    ensures
        (#[trigger] pview_seq(s)).len() == s.len(),
        forall|i: int| 0 <= i < s.len() ==> pview_seq(s)[i] == pview(s[i]),
    decreases s,
{
    if s.len() > 0 {
        lemma_pview_seq(s.drop_first());
        assert forall|i: int| 0 <= i < s.len() implies pview_seq(s)[i] == pview(s[i]) by {
            if i > 0 {
                assert(pview_seq(s)[i] == pview_seq(s.drop_first())[i - 1]);
                assert(s.drop_first()[i - 1] == s[i]);
            }
        }
    }
}

impl View for Program {
    type V = ProgView;

    open spec fn view(&self) -> ProgView {
        pview(*self)
    }
}

impl Clone for Program {
    /// A deep copy with the same model.
    #[verifier::loop_isolation(false)]
    fn clone(&self) -> (res: Self)
        ensures
            res@ == self@,
        decreases *self,
    {
        match self {
            Program::Instruction(i) => Program::Instruction(*i),
            Program::Literal(l) => Program::Literal(*l),
            Program::List(cs) => {
                let mut out: Vec<Program> = Vec::new();
                let mut k: usize = 0;
                proof {
                    lemma_pview_seq(cs@);
                }
                while k < cs.len()
                    invariant
                        *self == Program::List(*cs),
                        k <= cs@.len(),
                        out@.len() == k,
                        forall|j: int| 0 <= j < k ==> pview(out@[j]) == pview(cs@[j]),
                        pview_seq(cs@).len() == cs@.len(),
                        forall|i: int| 0 <= i < cs@.len() ==> pview_seq(cs@)[i] == pview(cs@[i]),
                    decreases cs@.len() - k,
                {
                    proof {
                        assert((*self)->List_0 == *cs);
                        assert(decreases_to!(*self => (*self)->List_0));
                        assert(decreases_to!(*cs => cs@));
                        assert(decreases_to!(cs@ => cs@[k as int]));
                    }
                    let c = cs[k].clone();
                    out.push(c);
                    k += 1;
                }
                proof {
                    lemma_pview_seq(out@);
                    assert(pview_seq(out@) =~= pview_seq(cs@));
                }
                Program::List(out)
            },
        }
    }
}

/// The model of a pushed sequence is the pushed model.
pub proof fn lemma_pview_push(s: Seq<Program>, p: Program)
    ensures
        pview_seq(s.push(p)) == pview_seq(s).push(pview(p)),
{
    lemma_pview_seq(s);
    lemma_pview_seq(s.push(p));
    assert(pview_seq(s.push(p)) =~= pview_seq(s).push(pview(p)));
}

/// The model of a popped sequence is the popped model, and tops agree.
pub proof fn lemma_pview_drop_last(s: Seq<Program>)
    requires
        s.len() > 0,
    ensures
        pview_seq(s.drop_last()) == pview_seq(s).drop_last(),
        pview(s.last()) == pview_seq(s).last(),
{
    lemma_pview_seq(s);
    lemma_pview_seq(s.drop_last());
    assert(pview_seq(s.drop_last()) =~= pview_seq(s).drop_last());
}

/// Taking the model commutes with the stack-manipulation operations.
pub proof fn lemma_pview_stack_ops(s: Seq<Program>, d: int)
    ensures
        pview_seq(crate::stack::seq_swap(s)) == crate::stack::seq_swap(pview_seq(s)),
        pview_seq(crate::stack::seq_rot(s)) == crate::stack::seq_rot(pview_seq(s)),
        pview_seq(crate::stack::seq_shove(s, d)) == crate::stack::seq_shove(pview_seq(s), d),
        pview_seq(crate::stack::seq_yank(s, d)) == crate::stack::seq_yank(pview_seq(s), d),
        pview_seq(crate::stack::seq_yank_dup(s, d)) == crate::stack::seq_yank_dup(
            pview_seq(s),
            d,
        ),
{
    lemma_pview_seq(s);
    lemma_pview_seq(crate::stack::seq_swap(s));
    lemma_pview_seq(crate::stack::seq_rot(s));
    lemma_pview_seq(crate::stack::seq_shove(s, d));
    lemma_pview_seq(crate::stack::seq_yank(s, d));
    lemma_pview_seq(crate::stack::seq_yank_dup(s, d));
    assert(pview_seq(crate::stack::seq_swap(s)) =~= crate::stack::seq_swap(pview_seq(s)));
    assert(pview_seq(crate::stack::seq_rot(s)) =~= crate::stack::seq_rot(pview_seq(s)));
    assert(pview_seq(crate::stack::seq_shove(s, d)) =~= crate::stack::seq_shove(pview_seq(s), d));
    assert(pview_seq(crate::stack::seq_yank(s, d)) =~= crate::stack::seq_yank(pview_seq(s), d));
    assert(pview_seq(crate::stack::seq_yank_dup(s, d)) =~= crate::stack::seq_yank_dup(
        pview_seq(s),
        d,
    ));
}

/// Sums of points saturate at this bound, so that a point count always fits
/// the integer domain.
pub open spec fn cap_points(x: int) -> int {
    if x > i64::MAX {
        i64::MAX as int
    } else {
        x
    }
}

/// The number of points (nodes) in a tree: an atom is 1 point, a list is 1
/// plus its children, saturating at the integer domain's bound.
pub open spec fn points(v: ProgView) -> int
    decreases v,
{
    match v {
        ProgView::List(cs) => cap_points(1 + points_seq(cs)),
        _ => 1,
    }
}

/// The summed points of a sequence of trees, saturating at the bound.
pub open spec fn points_seq(s: Seq<ProgView>) -> int
    decreases s,
{
    if s.len() == 0 {
        0
    } else {
        cap_points(points(s[0]) + points_seq(s.drop_first()))
    }
}

/// A point count lies in `[1, i64::MAX]`.
pub proof fn lemma_points_bounds(v: ProgView)
    ensures
        1 <= points(v) <= i64::MAX,
    decreases v,
{
    match v {
        ProgView::List(cs) => lemma_points_seq_bounds(cs),
        _ => {},
    }
}

/// A summed point count lies in `[0, i64::MAX]`, and grows with the
/// sequence.
pub proof fn lemma_points_seq_bounds(s: Seq<ProgView>)
    ensures
        0 <= points_seq(s) <= i64::MAX,
        s.len() > 0 ==> points_seq(s) >= 1,
    decreases s,
{
    if s.len() > 0 {
        lemma_points_bounds(s[0]);
        lemma_points_seq_bounds(s.drop_first());
    }
}

/// Whether `x` occurs in `v`: at the root or anywhere below it.
pub open spec fn contains_node(v: ProgView, x: ProgView) -> bool
    decreases v,
{
    v == x || match v {
        ProgView::List(cs) => contains_in(cs, x),
        _ => false,
    }
}

/// Whether `x` occurs in any tree of the sequence.
pub open spec fn contains_in(s: Seq<ProgView>, x: ProgView) -> bool
    decreases s,
{
    if s.len() == 0 {
        false
    } else {
        contains_node(s[0], x) || contains_in(s.drop_first(), x)
    }
}

/// The sub-tree at code address `addr` under pre-order numbering: address 0
/// is the whole tree, and a list's children follow it from left to right,
/// each occupying as many addresses as it has points.  An address past the
/// end lands on the empty list.
pub open spec fn subtree_at(v: ProgView, addr: int) -> ProgView
    decreases v,
{
    if addr <= 0 {
        v
    } else {
        match v {
            ProgView::List(cs) => subtree_in(cs, addr - 1),
            _ => v,
        }
    }
}

/// The sub-tree at an address within a sequence of children.
pub open spec fn subtree_in(s: Seq<ProgView>, addr: int) -> ProgView
    decreases s,
{
    if s.len() == 0 {
        ProgView::List(Seq::empty())
    } else if addr < points(s[0]) {
        subtree_at(s[0], addr)
    } else {
        subtree_in(s.drop_first(), addr - points(s[0]))
    }
}

/// `v` with the sub-tree at code address `addr` replaced by `x`; the
/// numbering is that of [`subtree_at`].  An address past the end leaves the
/// tree unchanged.
pub open spec fn replace_at(v: ProgView, addr: int, x: ProgView) -> ProgView
    decreases v,
{
    if addr <= 0 {
        x
    } else {
        match v {
            ProgView::List(cs) => ProgView::List(replace_in(cs, addr - 1, x)),
            _ => v,
        }
    }
}

/// Replacement at an address within a sequence of children.
pub open spec fn replace_in(s: Seq<ProgView>, addr: int, x: ProgView) -> Seq<ProgView>
    decreases s,
{
    if s.len() == 0 {
        s
    } else if addr < points(s[0]) {
        seq![replace_at(s[0], addr, x)] + s.drop_first()
    } else {
        seq![s[0]] + replace_in(s.drop_first(), addr - points(s[0]), x)
    }
}

/// `v` with every occurrence of `pat` replaced by `rep`; replacements are
/// not descended into.
pub open spec fn subst(v: ProgView, pat: ProgView, rep: ProgView) -> ProgView
    decreases v,
{
    if v == pat {
        rep
    } else {
        match v {
            ProgView::List(cs) => ProgView::List(subst_seq(cs, pat, rep)),
            _ => v,
        }
    }
}

/// Substitution over a sequence of children.
pub open spec fn subst_seq(s: Seq<ProgView>, pat: ProgView, rep: ProgView) -> Seq<ProgView>
    decreases s,
{
    if s.len() == 0 {
        s
    } else {
        seq![subst(s[0], pat, rep)] + subst_seq(s.drop_first(), pat, rep)
    }
}

/// The container of `x` in `v`: the deepest, leftmost list of `v` that has
/// an occurrence of `x` among the trees below it; `None` when `x` does not
/// occur below a list of `v`.
pub open spec fn container_of(v: ProgView, x: ProgView) -> Option<ProgView>
    decreases v,
{
    match v {
        ProgView::List(cs) => {
            let below = container_in(cs, x);
            if below is Some {
                below
            } else if contains_in(cs, x) {
                Some(v)
            } else {
                None
            }
        },
        _ => None,
    }
}

/// The first child, left to right, holding a container of `x`.
pub open spec fn container_in(s: Seq<ProgView>, x: ProgView) -> Option<ProgView>
    decreases s,
{
    if s.len() == 0 {
        None
    } else if container_of(s[0], x) is Some {
        container_of(s[0], x)
    } else {
        container_in(s.drop_first(), x)
    }
}

/// A structural dissimilarity count between two trees: equal atoms differ
/// by 0, unequal atoms by 1, an atom and a list by their summed points, and
/// two lists by the summed dissimilarity of their paired children plus the
/// points of the unpaired rest; sums saturate at the integer domain's
/// bound.
pub open spec fn discrepancy(a: ProgView, b: ProgView) -> int
    decreases a,
{
    match (a, b) {
        (ProgView::List(xs), ProgView::List(ys)) => discrepancy_seq(xs, ys),
        _ => if a == b {
            0
        } else if (a is List) || (b is List) {
            cap_points(points(a) + points(b))
        } else {
            1
        },
    }
}

/// Pairwise dissimilarity of two child sequences.
pub open spec fn discrepancy_seq(xs: Seq<ProgView>, ys: Seq<ProgView>) -> int
    decreases xs,
{
    if xs.len() == 0 {
        points_seq(ys)
    } else if ys.len() == 0 {
        points_seq(xs)
    } else {
        cap_points(
            discrepancy(xs[0], ys[0]) + discrepancy_seq(xs.drop_first(), ys.drop_first()),
        )
    }
}

/// A dissimilarity count lies in `[0, i64::MAX]`.
pub proof fn lemma_discrepancy_bounds(a: ProgView, b: ProgView)
    ensures
        0 <= discrepancy(a, b) <= i64::MAX,
    decreases a,
{
    match (a, b) {
        (ProgView::List(xs), ProgView::List(ys)) => lemma_discrepancy_seq_bounds(xs, ys),
        _ => {
            lemma_points_bounds(a);
            lemma_points_bounds(b);
        },
    }
}

/// A pairwise dissimilarity count lies in `[0, i64::MAX]`.
pub proof fn lemma_discrepancy_seq_bounds(xs: Seq<ProgView>, ys: Seq<ProgView>)
    ensures
        0 <= discrepancy_seq(xs, ys) <= i64::MAX,
    decreases xs,
{
    if xs.len() == 0 {
        lemma_points_seq_bounds(ys);
    } else if ys.len() == 0 {
        lemma_points_seq_bounds(xs);
    } else {
        lemma_discrepancy_bounds(xs[0], ys[0]);
        lemma_discrepancy_seq_bounds(xs.drop_first(), ys.drop_first());
    }
}

/// Duplication law: any copy that `clone` may produce has the same model as
/// the original, so duplicating the top of a one-element program stack and
/// popping twice yields two nodes with equal models.
pub proof fn lemma_duplicate_yields_equal_pair(s: Seq<Program>, c: Program)
    requires
        s.len() == 1,
        cloned::<Program>(s.last(), c),
    ensures
        pview(s.push(c).last()) == pview(s.push(c).drop_last().last()),
{
    assert(s.push(c).drop_last() =~= s);
}

/// Structural equality of two programs, decided against their models.
#[verifier::loop_isolation(false)]
pub fn tree_eq(a: &Program, b: &Program) -> (r: bool)
    ensures
        r == (a@ == b@),
    decreases *a,
{
    match (a, b) {
        (Program::Instruction(x), Program::Instruction(y)) => *x == *y,
        (Program::Literal(x), Program::Literal(y)) => *x == *y,
        (Program::List(xs), Program::List(ys)) => {
            proof {
                lemma_pview_seq(xs@);
                lemma_pview_seq(ys@);
            }
            if xs.len() != ys.len() {
                proof {
                    assert(pview_seq(xs@).len() != pview_seq(ys@).len());
                }
                false
            } else {
                let mut k: usize = 0;
                while k < xs.len()
                    invariant
                        *a == Program::List(*xs),
                        *b == Program::List(*ys),
                        k <= xs@.len(),
                        xs@.len() == ys@.len(),
                        pview_seq(xs@).len() == xs@.len(),
                        pview_seq(ys@).len() == ys@.len(),
                        forall|i: int| 0 <= i < xs@.len() ==> pview_seq(xs@)[i] == pview(xs@[i]),
                        forall|i: int| 0 <= i < ys@.len() ==> pview_seq(ys@)[i] == pview(ys@[i]),
                        forall|j: int| 0 <= j < k ==> pview(xs@[j]) == pview(ys@[j]),
                    decreases xs@.len() - k,
                {
                    proof {
                        assert((*a)->List_0 == *xs);
                        assert(decreases_to!(*a => (*a)->List_0));
                        assert(decreases_to!(*xs => xs@));
                        assert(decreases_to!(xs@ => xs@[k as int]));
                    }
                    if !tree_eq(&xs[k], &ys[k]) {
                        proof {
                            assert(pview_seq(xs@)[k as int] != pview_seq(ys@)[k as int]);
                            assert(pview_seq(xs@) != pview_seq(ys@));
                        }
                        return false;
                    }
                    k += 1;
                }
                proof {
                    assert(pview_seq(xs@) =~= pview_seq(ys@));
                }
                true
            }
        },
        _ => {
            proof {
                assert(a@ != b@);
            }
            false
        },
    }
}

/// `contains_in` holds exactly when some tree of the sequence has an
/// occurrence.
pub proof fn lemma_contains_in_iff(s: Seq<ProgView>, x: ProgView)
    ensures
        contains_in(s, x) <==> exists|i: int| 0 <= i < s.len() && contains_node(s[i], x),
    decreases s,
{
    if s.len() > 0 {
        lemma_contains_in_iff(s.drop_first(), x);
        if contains_in(s, x) {
            if contains_node(s[0], x) {
                assert(contains_node(s[0], x) && 0 < s.len());
            } else {
                let i = choose|i: int|
                    0 <= i < s.drop_first().len() && contains_node(s.drop_first()[i], x);
                assert(contains_node(s[i + 1], x));
            }
        }
        if exists|i: int| 0 <= i < s.len() && contains_node(s[i], x) {
            let i = choose|i: int| 0 <= i < s.len() && contains_node(s[i], x);
            if i > 0 {
                assert(contains_node(s.drop_first()[i - 1], x));
            }
        }
    }
}

/// `subst_seq` maps the substitution over the sequence elementwise.
pub proof fn lemma_subst_seq(s: Seq<ProgView>, pat: ProgView, rep: ProgView)
    ensures
        subst_seq(s, pat, rep).len() == s.len(),
        forall|i: int| 0 <= i < s.len() ==> subst_seq(s, pat, rep)[i] == subst(s[i], pat, rep),
    decreases s,
{
    if s.len() > 0 {
        lemma_subst_seq(s.drop_first(), pat, rep);
        assert forall|i: int| 0 <= i < s.len() implies subst_seq(s, pat, rep)[i] == subst(
            s[i],
            pat,
            rep,
        ) by {
            if i > 0 {
                assert(subst_seq(s, pat, rep)[i] == subst_seq(s.drop_first(), pat, rep)[i - 1]);
                assert(s.drop_first()[i - 1] == s[i]);
            }
        }
    }
}

/// The number of points in a tree, saturating at the integer domain's
/// bound.
#[verifier::loop_isolation(false)]
pub fn count_points(p: &Program) -> (n: i64)
    ensures
        n == points(p@),
    decreases *p,
{
    match p {
        Program::List(cs) => {
            proof {
                lemma_pview_seq(cs@);
            }
            let ghost vs = pview_seq(cs@);
            let mut acc: i64 = 0;
            let mut k: usize = cs.len();
            proof {
                assert(vs.skip(cs@.len() as int) =~= Seq::<ProgView>::empty());
            }
            while k > 0
                invariant
                    *p == Program::List(*cs),
                    k <= cs@.len(),
                    vs == pview_seq(cs@),
                    vs.len() == cs@.len(),
                    forall|i: int| 0 <= i < cs@.len() ==> vs[i] == pview(cs@[i]),
                    acc == points_seq(vs.skip(k as int)),
                decreases k,
            {
                proof {
                    assert((*p)->List_0 == *cs);
                    assert(decreases_to!(*p => (*p)->List_0));
                    assert(decreases_to!(*cs => cs@));
                    assert(decreases_to!(cs@ => cs@[k - 1]));
                }
                let c = count_points(&cs[k - 1]);
                proof {
                    lemma_points_bounds(vs[k - 1]);
                    lemma_points_seq_bounds(vs.skip(k as int));
                    assert(vs.skip(k - 1).drop_first() =~= vs.skip(k as int));
                    assert(vs.skip(k - 1)[0] == vs[k - 1]);
                }
                acc = int_plus(c, acc);
                k -= 1;
            }
            proof {
                assert(vs.skip(0) =~= vs);
                lemma_points_seq_bounds(vs);
            }
            int_plus(1, acc)
        },
        _ => 1,
    }
}

/// Whether `x` occurs anywhere in `p`.
#[verifier::loop_isolation(false)]
pub fn contains_point(p: &Program, x: &Program) -> (r: bool)
    ensures
        r == contains_node(p@, x@),
    decreases *p,
{
    if tree_eq(p, x) {
        return true;
    }
    match p {
        Program::List(cs) => {
            proof {
                lemma_pview_seq(cs@);
            }
            let ghost vs = pview_seq(cs@);
            let mut k: usize = 0;
            while k < cs.len()
                invariant
                    *p == Program::List(*cs),
                    k <= cs@.len(),
                    vs == pview_seq(cs@),
                    vs.len() == cs@.len(),
                    forall|i: int| 0 <= i < cs@.len() ==> vs[i] == pview(cs@[i]),
                    forall|j: int| 0 <= j < k ==> !contains_node(vs[j], x@),
                decreases cs@.len() - k,
            {
                proof {
                    assert((*p)->List_0 == *cs);
                    assert(decreases_to!(*p => (*p)->List_0));
                    assert(decreases_to!(*cs => cs@));
                    assert(decreases_to!(cs@ => cs@[k as int]));
                }
                if contains_point(&cs[k], x) {
                    proof {
                        lemma_contains_in_iff(vs, x@);
                        assert(0 <= k < vs.len() && contains_node(vs[k as int], x@));
                        assert(contains_in(vs, x@));
                        assert(p@ == ProgView::List(vs));
                    }
                    return true;
                }
                k += 1;
            }
            proof {
                lemma_contains_in_iff(vs, x@);
            }
            false
        },
        _ => false,
    }
}

/// A copy of the sub-tree at code address `addr` of `p`, under the
/// pre-order numbering of [`subtree_at`].
#[verifier::loop_isolation(false)]
pub fn extract_point(p: &Program, addr: i64) -> (r: Program)
    requires
        0 <= addr,
    ensures
        r@ == subtree_at(p@, addr as int),
    decreases *p,
{
    if addr == 0 {
        return p.clone();
    }
    match p {
        Program::List(cs) => {
            proof {
                lemma_pview_seq(cs@);
            }
            let ghost vs = pview_seq(cs@);
            let mut rem: i64 = addr - 1;
            let mut k: usize = 0;
            proof {
                assert(vs.skip(0) =~= vs);
            }
            while k < cs.len()
                invariant
                    *p == Program::List(*cs),
                    k <= cs@.len(),
                    0 <= rem,
                    vs == pview_seq(cs@),
                    vs.len() == cs@.len(),
                    forall|i: int| 0 <= i < cs@.len() ==> vs[i] == pview(cs@[i]),
                    subtree_in(vs, addr - 1) == subtree_in(vs.skip(k as int), rem as int),
                decreases cs@.len() - k,
            {
                proof {
                    assert((*p)->List_0 == *cs);
                    assert(decreases_to!(*p => (*p)->List_0));
                    assert(decreases_to!(*cs => cs@));
                    assert(decreases_to!(cs@ => cs@[k as int]));
                    assert(vs.skip(k as int)[0] == vs[k as int]);
                    assert(vs.skip(k as int).drop_first() =~= vs.skip(k + 1));
                    lemma_points_bounds(vs[k as int]);
                }
                let c = count_points(&cs[k]);
                if rem < c {
                    proof {
                        assert(subtree_in(vs.skip(k as int), rem as int) == subtree_at(
                            vs[k as int],
                            rem as int,
                        ));
                        assert(p@ == ProgView::List(vs));
                        assert(subtree_at(p@, addr as int) == subtree_in(vs, addr - 1));
                    }
                    return extract_point(&cs[k], rem);
                }
                rem = rem - c;
                k += 1;
            }
            proof {
                assert(vs.skip(cs@.len() as int) =~= Seq::<ProgView>::empty());
            }
            Program::List(Vec::new())
        },
        _ => p.clone(),
    }
}

/// A copy of `p` with the sub-tree at code address `addr` replaced by a
/// copy of `x`, under the pre-order numbering of [`subtree_at`].
#[verifier::rlimit(50)]
#[verifier::loop_isolation(false)]
pub fn insert_point(p: &Program, addr: i64, x: &Program) -> (r: Program)
    requires
        0 <= addr,
    ensures
        r@ == replace_at(p@, addr as int, x@),
    decreases *p,
{
    if addr == 0 {
        return x.clone();
    }
    match p {
        Program::List(cs) => {
            proof {
                lemma_pview_seq(cs@);
            }
            let ghost vs = pview_seq(cs@);
            let mut out: Vec<Program> = Vec::new();
            let mut rem: i64 = addr - 1;
            let mut k: usize = 0;
            proof {
                assert(vs.skip(0) =~= vs);
                assert(vs.take(0) =~= Seq::<ProgView>::empty());
                assert(replace_in(vs, addr - 1, x@) =~= vs.take(0) + replace_in(
                    vs.skip(0),
                    (addr - 1) as int,
                    x@,
                ));
            }
            while k < cs.len()
                invariant
                    *p == Program::List(*cs),
                    k <= cs@.len(),
                    0 <= rem,
                    vs == pview_seq(cs@),
                    vs.len() == cs@.len(),
                    forall|i: int| 0 <= i < cs@.len() ==> vs[i] == pview(cs@[i]),
                    out@.len() == k,
                    forall|j: int| 0 <= j < k ==> pview(out@[j]) == vs[j],
                    replace_in(vs, addr - 1, x@) =~= vs.take(k as int) + replace_in(
                        vs.skip(k as int),
                        rem as int,
                        x@,
                    ),
                decreases cs@.len() - k,
            {
                proof {
                    assert((*p)->List_0 == *cs);
                    assert(decreases_to!(*p => (*p)->List_0));
                    assert(decreases_to!(*cs => cs@));
                    assert(decreases_to!(cs@ => cs@[k as int]));
                    assert(vs.skip(k as int)[0] == vs[k as int]);
                    assert(vs.skip(k as int).drop_first() =~= vs.skip(k + 1));
                    lemma_points_bounds(vs[k as int]);
                }
                let c = count_points(&cs[k]);
                if rem < c {
                    let replaced = insert_point(&cs[k], rem, x);
                    proof {
                        assert(replace_in(vs.skip(k as int), rem as int, x@) =~= seq![
                            replace_at(vs[k as int], rem as int, x@),
                        ] + vs.skip(k + 1));
                        assert(replace_in(vs, addr - 1, x@) =~= vs.take(k as int) + (seq![
                            replace_at(vs[k as int], rem as int, x@),
                        ] + vs.skip(k + 1)));
                        assert(replace_in(vs, addr - 1, x@).len() == vs.len());
                        assert(forall|i: int|
                            0 <= i < k ==> replace_in(vs, addr - 1, x@)[i] == vs[i]);
                        assert(replace_in(vs, addr - 1, x@)[k as int] == replace_at(
                            vs[k as int],
                            rem as int,
                            x@,
                        ));
                        assert(forall|i: int|
                            k < i < vs.len() ==> replace_in(vs, addr - 1, x@)[i] == vs[i]);
                    }
                    out.push(replaced);
                    let mut j: usize = k + 1;
                    while j < cs.len()
                        invariant
                            *p == Program::List(*cs),
                            k < j,
                            j <= cs@.len(),
                            vs == pview_seq(cs@),
                            vs.len() == cs@.len(),
                            forall|i: int| 0 <= i < cs@.len() ==> vs[i] == pview(cs@[i]),
                            out@.len() == j,
                            forall|i: int| 0 <= i < j ==> pview(out@[i]) == replace_in(
                                vs,
                                addr - 1,
                                x@,
                            )[i],
                            replace_in(vs, addr - 1, x@).len() == vs.len(),
                        decreases cs@.len() - j,
                    {
                        let copy = cs[j].clone();
                        out.push(copy);
                        j += 1;
                    }
                    proof {
                        lemma_pview_seq(out@);
                        assert(pview_seq(out@) =~= replace_in(vs, addr - 1, x@));
                    }
                    return Program::List(out);
                }
                let copy = cs[k].clone();
                out.push(copy);
                rem = rem - c;
                k += 1;
                proof {
                    assert(vs.take(k as int).drop_last() =~= vs.take(k - 1));
                    assert(replace_in(vs, addr - 1, x@) =~= vs.take(k as int) + replace_in(
                        vs.skip(k as int),
                        rem as int,
                        x@,
                    ));
                }
            }
            proof {
                assert(vs.skip(cs@.len() as int) =~= Seq::<ProgView>::empty());
                assert(replace_in(vs, addr - 1, x@) =~= vs);
                lemma_pview_seq(out@);
                assert(pview_seq(out@) =~= vs);
            }
            Program::List(out)
        },
        _ => p.clone(),
    }
}

/// A copy of `p` with every occurrence of `pat` replaced by a copy of
/// `rep`; replacements are not descended into.
#[verifier::loop_isolation(false)]
pub fn substitute(p: &Program, pat: &Program, rep: &Program) -> (r: Program)
    ensures
        r@ == subst(p@, pat@, rep@),
    decreases *p,
{
    if tree_eq(p, pat) {
        return rep.clone();
    }
    match p {
        Program::List(cs) => {
            proof {
                lemma_pview_seq(cs@);
                lemma_subst_seq(pview_seq(cs@), pat@, rep@);
            }
            let ghost vs = pview_seq(cs@);
            let mut out: Vec<Program> = Vec::new();
            let mut k: usize = 0;
            while k < cs.len()
                invariant
                    *p == Program::List(*cs),
                    k <= cs@.len(),
                    vs == pview_seq(cs@),
                    vs.len() == cs@.len(),
                    forall|i: int| 0 <= i < cs@.len() ==> vs[i] == pview(cs@[i]),
                    out@.len() == k,
                    forall|j: int| 0 <= j < k ==> pview(out@[j]) == subst(vs[j], pat@, rep@),
                decreases cs@.len() - k,
            {
                proof {
                    assert((*p)->List_0 == *cs);
                    assert(decreases_to!(*p => (*p)->List_0));
                    assert(decreases_to!(*cs => cs@));
                    assert(decreases_to!(cs@ => cs@[k as int]));
                }
                let s = substitute(&cs[k], pat, rep);
                out.push(s);
                k += 1;
            }
            proof {
                lemma_pview_seq(out@);
                lemma_subst_seq(vs, pat@, rep@);
                assert(pview_seq(out@) =~= subst_seq(vs, pat@, rep@));
            }
            Program::List(out)
        },
        _ => p.clone(),
    }
}

/// A copy of the container of `x` in `p`: the deepest, leftmost list with
/// an occurrence of `x` below it, or `None` when there is none.
#[verifier::loop_isolation(false)]
pub fn container_node(p: &Program, x: &Program) -> (r: Option<Program>)
    ensures
        (r is None) == (container_of(p@, x@) is None),
        r matches Some(c) ==> container_of(p@, x@) == Some(c@),
    decreases *p,
{
    match p {
        Program::List(cs) => {
            proof {
                lemma_pview_seq(cs@);
            }
            let ghost vs = pview_seq(cs@);
            let mut k: usize = 0;
            proof {
                assert(vs.skip(0) =~= vs);
            }
            while k < cs.len()
                invariant
                    *p == Program::List(*cs),
                    k <= cs@.len(),
                    vs == pview_seq(cs@),
                    vs.len() == cs@.len(),
                    forall|i: int| 0 <= i < cs@.len() ==> vs[i] == pview(cs@[i]),
                    container_in(vs, x@) == container_in(vs.skip(k as int), x@),
                decreases cs@.len() - k,
            {
                proof {
                    assert((*p)->List_0 == *cs);
                    assert(decreases_to!(*p => (*p)->List_0));
                    assert(decreases_to!(*cs => cs@));
                    assert(decreases_to!(cs@ => cs@[k as int]));
                    assert(vs.skip(k as int)[0] == vs[k as int]);
                    assert(vs.skip(k as int).drop_first() =~= vs.skip(k + 1));
                }
                match container_node(&cs[k], x) {
                    Some(c) => {
                        return Some(c);
                    },
                    None => {},
                }
                k += 1;
            }
            proof {
                assert(vs.skip(cs@.len() as int) =~= Seq::<ProgView>::empty());
                assert(container_in(vs, x@) is None);
            }
            let mut j: usize = 0;
            while j < cs.len()
                invariant
                    *p == Program::List(*cs),
                    j <= cs@.len(),
                    vs == pview_seq(cs@),
                    vs.len() == cs@.len(),
                    forall|i: int| 0 <= i < cs@.len() ==> vs[i] == pview(cs@[i]),
                    container_in(vs, x@) is None,
                    forall|i: int| 0 <= i < j ==> !contains_node(vs[i], x@),
                decreases cs@.len() - j,
            {
                if contains_point(&cs[j], x) {
                    proof {
                        lemma_contains_in_iff(vs, x@);
                        assert(0 <= j < vs.len() && contains_node(vs[j as int], x@));
                        assert(contains_in(vs, x@));
                        assert(p@ == ProgView::List(vs));
                        assert(container_of(p@, x@) == Some(p@));
                    }
                    return Some(p.clone());
                }
                j += 1;
            }
            proof {
                lemma_contains_in_iff(vs, x@);
            }
            None
        },
        _ => None,
    }
}

/// The structural dissimilarity count of [`discrepancy`] between two trees.
#[verifier::loop_isolation(false)]
pub fn discrepancy_count(a: &Program, b: &Program) -> (n: i64)
    ensures
        n == discrepancy(a@, b@),
    decreases *a,
{
    match (a, b) {
        (Program::List(xs), Program::List(ys)) => {
            proof {
                lemma_pview_seq(xs@);
                lemma_pview_seq(ys@);
            }
            let ghost vx = pview_seq(xs@);
            let ghost vy = pview_seq(ys@);
            let m: usize = if xs.len() <= ys.len() {
                xs.len()
            } else {
                ys.len()
            };
            // Points of the unpaired tail of the longer sequence.
            let mut acc: i64 = 0;
            if xs.len() > m {
                let mut k: usize = xs.len();
                proof {
                    assert(vx.skip(xs@.len() as int) =~= Seq::<ProgView>::empty());
                }
                while k > m
                    invariant
                        *a == Program::List(*xs),
                        m <= k <= xs@.len(),
                        vx == pview_seq(xs@),
                        vx.len() == xs@.len(),
                        forall|i: int| 0 <= i < xs@.len() ==> vx[i] == pview(xs@[i]),
                        acc == points_seq(vx.skip(k as int)),
                    decreases k,
                {
                    proof {
                        assert((*a)->List_0 == *xs);
                        assert(decreases_to!(*a => (*a)->List_0));
                        assert(decreases_to!(*xs => xs@));
                        assert(decreases_to!(xs@ => xs@[k - 1]));
                        lemma_points_bounds(vx[k - 1]);
                        lemma_points_seq_bounds(vx.skip(k as int));
                        assert(vx.skip(k - 1).drop_first() =~= vx.skip(k as int));
                        assert(vx.skip(k - 1)[0] == vx[k - 1]);
                    }
                    let c = count_points(&xs[k - 1]);
                    acc = int_plus(c, acc);
                    k -= 1;
                }
            } else if ys.len() > m {
                let mut k: usize = ys.len();
                proof {
                    assert(vy.skip(ys@.len() as int) =~= Seq::<ProgView>::empty());
                }
                while k > m
                    invariant
                        m <= k <= ys@.len(),
                        vy == pview_seq(ys@),
                        vy.len() == ys@.len(),
                        forall|i: int| 0 <= i < ys@.len() ==> vy[i] == pview(ys@[i]),
                        acc == points_seq(vy.skip(k as int)),
                    decreases k,
                {
                    proof {
                        lemma_points_bounds(vy[k - 1]);
                        lemma_points_seq_bounds(vy.skip(k as int));
                        assert(vy.skip(k - 1).drop_first() =~= vy.skip(k as int));
                        assert(vy.skip(k - 1)[0] == vy[k - 1]);
                    }
                    let c = count_points(&ys[k - 1]);
                    acc = int_plus(c, acc);
                    k -= 1;
                }
            }
            proof {
                if xs@.len() <= ys@.len() {
                    assert(vx.skip(m as int) =~= Seq::<ProgView>::empty());
                } else {
                    assert(vy.skip(m as int).len() == 0);
                }
                assert(acc == discrepancy_seq(vx.skip(m as int), vy.skip(m as int)));
            }
            // Paired dissimilarity, folded from the right.
            let mut k: usize = m;
            while k > 0
                invariant
                    *a == Program::List(*xs),
                    k <= m,
                    m <= vx.len() && m <= vy.len(),
                    vx == pview_seq(xs@),
                    vy == pview_seq(ys@),
                    vx.len() == xs@.len(),
                    vy.len() == ys@.len(),
                    forall|i: int| 0 <= i < xs@.len() ==> vx[i] == pview(xs@[i]),
                    forall|i: int| 0 <= i < ys@.len() ==> vy[i] == pview(ys@[i]),
                    acc == discrepancy_seq(vx.skip(k as int), vy.skip(k as int)),
                decreases k,
            {
                proof {
                    assert((*a)->List_0 == *xs);
                    assert(decreases_to!(*a => (*a)->List_0));
                    assert(decreases_to!(*xs => xs@));
                    assert(decreases_to!(xs@ => xs@[k - 1]));
                    lemma_discrepancy_bounds(vx[k - 1], vy[k - 1]);
                    lemma_discrepancy_seq_bounds(vx.skip(k as int), vy.skip(k as int));
                    assert(vx.skip(k - 1).drop_first() =~= vx.skip(k as int));
                    assert(vy.skip(k - 1).drop_first() =~= vy.skip(k as int));
                    assert(vx.skip(k - 1)[0] == vx[k - 1]);
                    assert(vy.skip(k - 1)[0] == vy[k - 1]);
                }
                let d = discrepancy_count(&xs[k - 1], &ys[k - 1]);
                acc = int_plus(d, acc);
                k -= 1;
            }
            proof {
                assert(vx.skip(0) =~= vx);
                assert(vy.skip(0) =~= vy);
            }
            acc
        },
        _ => {
            if tree_eq(a, b) {
                0
            } else {
                let a_list = match a {
                    Program::List(_) => true,
                    _ => false,
                };
                let b_list = match b {
                    Program::List(_) => true,
                    _ => false,
                };
                if a_list || b_list {
                    proof {
                        lemma_points_bounds(a@);
                        lemma_points_bounds(b@);
                    }
                    let pa = count_points(a);
                    let pb = count_points(b);
                    int_plus(pa, pb)
                } else {
                    1
                }
            }
        },
    }
}

} // verus!
