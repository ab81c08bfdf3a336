//! The set of predicates a declaration's header must carry: free of
//! duplicates, and always held in the canonical order.
use vstd::prelude::*;
use crate::kind::{
    lemma_pred_lt_irreflexive, lemma_pred_lt_total, lemma_pred_lt_transitive, pred_lt, precedes,
    OutlivesPredicate,
};

verus! {

/// Whether `s` is strictly increasing in the canonical order.
pub open spec fn strictly_sorted(s: Seq<OutlivesPredicate>) -> bool {
    forall|i: int, j: int| 0 <= i < j < s.len() ==> pred_lt(#[trigger] s[i], #[trigger] s[j])
}

proof fn lemma_sorted_determined_by_set(s: Seq<OutlivesPredicate>, t: Seq<OutlivesPredicate>)
    requires
        strictly_sorted(s),
        strictly_sorted(t),
        s.to_set() == t.to_set(),
    ensures
        s == t,
    decreases s.len(),
{
    if s.len() == 0 {
        if t.len() > 0 {
            assert(t.to_set().contains(t[0]));
        }
        assert(s =~= t);
    } else {
        assert(s.to_set().contains(s[0]));
        assert(t.len() > 0);
        assert(t.to_set().contains(t[0]));
        let i = choose|i: int| 0 <= i < s.len() && s[i] == t[0];
        let j = choose|j: int| 0 <= j < t.len() && t[j] == s[0];
        if j > 0 {
            if i > 0 {
                lemma_pred_lt_transitive(s[0], s[i], s[0]);
            }
            lemma_pred_lt_irreflexive(s[0]);
        }
        assert(s[0] == t[0]);
        let (s1, t1) = (s.drop_first(), t.drop_first());
        assert forall|x: OutlivesPredicate| s1.to_set().contains(x) implies t1.to_set().contains(x) by {
            let k = choose|k: int| 0 <= k < s1.len() && s1[k] == x;
            assert(s[k + 1] == x);
            assert(pred_lt(s[0], x));
            lemma_pred_lt_irreflexive(x);
            assert(t.to_set().contains(x));
            let m = choose|m: int| 0 <= m < t.len() && t[m] == x;
            assert(m > 0);
            assert(t1[m - 1] == x);
        }
        assert forall|x: OutlivesPredicate| t1.to_set().contains(x) implies s1.to_set().contains(x) by {
            let k = choose|k: int| 0 <= k < t1.len() && t1[k] == x;
            assert(t[k + 1] == x);
            assert(pred_lt(t[0], x));
            lemma_pred_lt_irreflexive(x);
            assert(s.to_set().contains(x));
            let m = choose|m: int| 0 <= m < s.len() && s[m] == x;
            assert(m > 0);
            assert(s1[m - 1] == x);
        }
        assert(s1.to_set() =~= t1.to_set());
        lemma_sorted_determined_by_set(s1, t1);
        assert(s =~= t) by {
            assert forall|k: int| 0 <= k < s.len() implies s[k] == t[k] by {
                if k > 0 {
                    assert(s[k] == s1[k - 1] && t[k] == t1[k - 1]);
                }
            }
        }
    }
}

/// The predicates required of one declaration, deduplicated and kept in the
/// canonical order whatever order they were inserted in.
pub struct RequiredPredicates {
    items: Vec<OutlivesPredicate>,
}

impl View for RequiredPredicates {
    type V = Seq<OutlivesPredicate>;

    closed spec fn view(&self) -> Seq<OutlivesPredicate> {
        self.items@
    }
}

/// The order in which a set holds its predicates depends on which predicates
/// it holds alone, never on the order they were inserted in.
pub proof fn lemma_canonical_order(a: RequiredPredicates, b: RequiredPredicates)
    requires
        a.wf(),
        b.wf(),
        a.set() == b.set(),
    ensures
        a@ == b@,
{
    lemma_sorted_determined_by_set(a@, b@);
}

/// A set holds each of its predicates at one place only.
pub proof fn lemma_held_once(a: RequiredPredicates, i: int, j: int)
    requires
        a.wf(),
        0 <= i < a@.len(),
        0 <= j < a@.len(),
        a@[i] == a@[j],
    ensures
        i == j,
{
    lemma_pred_lt_irreflexive(a@[i]);
}

impl RequiredPredicates {
    /// The predicates are strictly increasing, hence distinct.
    pub open spec fn wf(&self) -> bool {
        strictly_sorted(self@)
    }

    /// The predicates held, as a set.
    pub open spec fn set(&self) -> Set<OutlivesPredicate> {
        self@.to_set()
    }

    /// An empty set of predicates.
    pub fn new() -> (r: Self)
        ensures
            r.wf(),
            r@ == Seq::<OutlivesPredicate>::empty(),
    {
        RequiredPredicates { items: Vec::new() }
    }

    /// The number of predicates held.
    pub fn len(&self) -> (r: usize)
        ensures
            r == self@.len(),
    {
        self.items.len()
    }

    /// The predicates, in canonical order.
    pub fn predicates(&self) -> (r: &Vec<OutlivesPredicate>)
        ensures
            r@ == self@,
    {
        &self.items
    }

    /// Whether `p` is held.
    pub fn contains(&self, p: &OutlivesPredicate) -> (r: bool)
        requires
            self.wf(),
        ensures
            r == self.set().contains(*p),
    {
        let mut i: usize = 0;
        while i < self.items.len()
            invariant
                i <= self@.len(),
                forall|j: int| 0 <= j < i ==> self@[j] != *p,
            decreases self@.len() - i,
        {
            if self.items[i] == *p {
                assert(self@[i as int] == *p);
                return true;
            }
            i = i + 1;
        }
        false
    }

    /// Adds `p`, at its place in the canonical order. Returns whether it was
    /// absent; adding a predicate already held changes nothing.
    pub fn insert(&mut self, p: OutlivesPredicate) -> (r: bool)
        requires
            old(self).wf(),
        ensures
            final(self).wf(),
            final(self).set() == old(self).set().insert(p),
            r == !old(self).set().contains(p),
            !r ==> final(self)@ == old(self)@,
    {
        let ghost s = self@;
        let mut i: usize = 0;
        while i < self.items.len() && precedes(&self.items[i], &p)
            invariant
                self@ == s,
                i <= s.len(),
                forall|j: int| 0 <= j < i ==> pred_lt(#[trigger] s[j], p),
            decreases s.len() - i,
        {
            i = i + 1;
        }
        // Everything from `i` on comes after `p`, or is `p`.
        if i < self.items.len() && self.items[i] == p {
            assert(s.to_set().contains(p) && s[i as int] == p);
            assert(s.to_set().insert(p) =~= s.to_set());
            return false;
        }
        proof {
            if i < s.len() {
                lemma_pred_lt_total(s[i as int], p);
            }
            assert forall|j: int| 0 <= j < s.len() implies s[j] != p by {
                if j < i {
                    lemma_pred_lt_irreflexive(p);
                } else {
                    if j > i {
                        lemma_pred_lt_transitive(p, s[i as int], s[j]);
                    }
                    lemma_pred_lt_irreflexive(p);
                }
            }
            assert forall|j: int| i <= j < s.len() implies pred_lt(p, #[trigger] s[j]) by {
                if j > i {
                    lemma_pred_lt_transitive(p, s[i as int], s[j]);
                }
            }
        }
        self.items.insert(i, p);
        proof {
            let t = self@;
            assert(t == s.insert(i as int, p));
            assert forall|a: int, b: int| 0 <= a < b < t.len() implies pred_lt(
                #[trigger] t[a],
                #[trigger] t[b],
            ) by {
                if a < i && b == i {
                } else if a < i && b > i {
                    assert(t[b] == s[b - 1]);
                } else if a == i {
                    assert(t[b] == s[b - 1]);
                } else if a > i {
                    assert(t[a] == s[a - 1] && t[b] == s[b - 1]);
                }
            }
            assert(t.to_set() =~= s.to_set().insert(p)) by {
                assert forall|x: OutlivesPredicate| t.to_set().contains(x) implies s.to_set().insert(
                    p,
                ).contains(x) by {
                    let k = choose|k: int| 0 <= k < t.len() && t[k] == x;
                    if k < i {
                        assert(s[k] == x);
                    } else if k > i {
                        assert(s[k - 1] == x);
                    }
                }
                assert forall|x: OutlivesPredicate| s.to_set().insert(p).contains(x) implies t.to_set().contains(
                    x,
                ) by {
                    if x == p {
                        assert(t[i as int] == p);
                    } else {
                        let k = choose|k: int| 0 <= k < s.len() && s[k] == x;
                        if k < i {
                            assert(t[k] == x);
                        } else {
                            assert(t[k + 1] == x);
                        }
                    }
                }
            }
        }
        true
    }
}

} // verus!
