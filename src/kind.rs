//! Types, generic arguments, the components a type decomposes into, and the
//! outlives predicates built from them, with their canonical order.
use vstd::prelude::*;
use crate::region::Region;

verus! {

/// An associated-type projection such as `<T as Iterator>::Item`, not yet
/// normalized: the associated item and the type parameter it projects from.
#[derive(Clone, Copy, Debug, PartialEq, Eq, Structural)]
pub struct AssocTypeRef {
    pub item: u32,
    pub self_param: u32,
}

/// A type as the analysis handles it. Type parameters and projections are
/// built by the analysis itself; any other type is known by the id under
/// which it was interned, and only the decomposer looks inside it.
#[derive(Clone, Copy, Debug, PartialEq, Eq, Structural)]
pub enum Ty {
    /// A type parameter of the declaration, by its index.
    Param(u32),
    /// An associated-type projection.
    Projection(AssocTypeRef),
    /// Any other type, by its interned id.
    Interned(u32),
}

/// A generic argument: a type or a region.
#[derive(Clone, Copy, Debug, PartialEq, Eq, Structural)]
pub enum Kind {
    TypeValue(Ty),
    RegionValue(Region),
}

/// An atomic piece of a type, as the decomposer yields it.
#[derive(Clone, Copy, Debug, PartialEq, Eq, Structural)]
pub enum Component {
    /// A region that occurs in the type.
    Region(Region),
    /// A type parameter that occurs in the type.
    Param(u32),
    /// A projection whose well-formedness the declaration must carry.
    Projection(AssocTypeRef),
    /// A projection that mentions a region bound inside the type; it is
    /// checked where the type is used, not on the declaration.
    EscapingProjection(AssocTypeRef),
    /// An inference variable, which a declaration-time type never holds.
    UnresolvedInference,
}

/// The obligation "the argument must outlive the region".
#[derive(Clone, Copy, Debug, PartialEq, Eq, Structural)]
pub struct OutlivesPredicate(pub Kind, pub Region);

/// The numbers that place a region in the canonical order.
pub open spec fn region_key(r: Region) -> Seq<u64> {
    match r {
        Region::Static => seq![0u64, 0, 0],
        Region::EarlyBound(i) => seq![1u64, i as u64, 0],
        Region::LateBound(d, i) => seq![2u64, d as u64, i as u64],
        Region::Empty => seq![3u64, 0, 0],
        Region::Erased => seq![4u64, 0, 0],
        Region::ClosureBound(i) => seq![5u64, i as u64, 0],
        Region::Canonical(i) => seq![6u64, i as u64, 0],
        Region::Scope(i) => seq![7u64, i as u64, 0],
        Region::InferenceVar(i) => seq![8u64, i as u64, 0],
        Region::Skolemized(i) => seq![9u64, i as u64, 0],
        Region::FreeRegionAtCallSite(i) => seq![10u64, i as u64, 0],
    }
}

/// The numbers that place a generic argument in the canonical order.
pub open spec fn kind_key(k: Kind) -> Seq<u64> {
    match k {
        Kind::TypeValue(Ty::Param(p)) => seq![0u64, 0, p as u64, 0],
        Kind::TypeValue(Ty::Projection(a)) => seq![0u64, 1, a.item as u64, a.self_param as u64],
        Kind::TypeValue(Ty::Interned(i)) => seq![0u64, 2, i as u64, 0],
        Kind::RegionValue(r) => seq![1u64].add(region_key(r)),
    }
}

/// The numbers that place a predicate in the canonical order: its argument
/// first, then its region.
pub open spec fn pred_key(p: OutlivesPredicate) -> Seq<u64> {
    kind_key(p.0).add(region_key(p.1))
}

/// Lexicographic order on sequences of numbers.
pub open spec fn lex_lt(a: Seq<u64>, b: Seq<u64>) -> bool
    decreases a.len(),
{
    if a.len() == 0 || b.len() == 0 {
        false
    } else if a[0] != b[0] {
        a[0] < b[0]
    } else {
        lex_lt(a.drop_first(), b.drop_first())
    }
}

/// The canonical order of predicates.
pub open spec fn pred_lt(p: OutlivesPredicate, q: OutlivesPredicate) -> bool {
    lex_lt(pred_key(p), pred_key(q))
}

proof fn lemma_lex_irreflexive(a: Seq<u64>)
    ensures
        !lex_lt(a, a),
    decreases a.len(),
{
    if a.len() > 0 {
        lemma_lex_irreflexive(a.drop_first());
    }
}

proof fn lemma_lex_transitive(a: Seq<u64>, b: Seq<u64>, c: Seq<u64>)
    requires
        lex_lt(a, b),
        lex_lt(b, c),
    ensures
        lex_lt(a, c),
    decreases a.len(),
{
    if a[0] == b[0] && b[0] == c[0] {
        lemma_lex_transitive(a.drop_first(), b.drop_first(), c.drop_first());
    }
}

proof fn lemma_lex_total(a: Seq<u64>, b: Seq<u64>)
    requires
        a.len() == b.len(),
        a != b,
    ensures
        lex_lt(a, b) || lex_lt(b, a),
    decreases a.len(),
{
    if a.len() == 0 {
        assert(a =~= b);
    } else if a[0] == b[0] {
        if a.drop_first() == b.drop_first() {
            assert(a =~= b) by {
                assert forall|i: int| 0 <= i < a.len() implies a[i] == b[i] by {
                    if i > 0 {
                        assert(a[i] == a.drop_first()[i - 1]);
                        assert(b[i] == b.drop_first()[i - 1]);
                    }
                }
            }
        } else {
            lemma_lex_total(a.drop_first(), b.drop_first());
        }
    }
}

proof fn lemma_pred_key_injective(p: OutlivesPredicate, q: OutlivesPredicate)
    requires
        pred_key(p) == pred_key(q),
    ensures
        p == q,
{
    let (kp, kq) = (kind_key(p.0), kind_key(q.0));
    let (rp, rq) = (region_key(p.1), region_key(q.1));
    assert(kp.len() == 4 && kq.len() == 4 && rp.len() == 3 && rq.len() == 3);
    assert forall|i: int| 0 <= i < 4 implies kp[i] == kq[i] by {
        assert(kp[i] == pred_key(p)[i]);
        assert(kq[i] == pred_key(q)[i]);
    }
    assert forall|i: int| 0 <= i < 3 implies rp[i] == rq[i] by {
        assert(rp[i] == pred_key(p)[i + 4]);
        assert(rq[i] == pred_key(q)[i + 4]);
    }
    if p.0 is RegionValue {
        assert(region_key(p.0->RegionValue_0)[0] == kp[1]);
        assert(region_key(p.0->RegionValue_0)[1] == kp[2]);
        assert(region_key(p.0->RegionValue_0)[2] == kp[3]);
        assert(region_key(q.0->RegionValue_0)[0] == kq[1]);
        assert(region_key(q.0->RegionValue_0)[1] == kq[2]);
        assert(region_key(q.0->RegionValue_0)[2] == kq[3]);
    }
}

/// The canonical order is irreflexive.
pub proof fn lemma_pred_lt_irreflexive(p: OutlivesPredicate)
    ensures
        !pred_lt(p, p),
{
    lemma_lex_irreflexive(pred_key(p));
}

/// The canonical order is transitive.
pub proof fn lemma_pred_lt_transitive(p: OutlivesPredicate, q: OutlivesPredicate, s: OutlivesPredicate)
    requires
        pred_lt(p, q),
        pred_lt(q, s),
    ensures
        pred_lt(p, s),
{
    lemma_lex_transitive(pred_key(p), pred_key(q), pred_key(s));
}

/// Any two distinct predicates are ordered one way or the other.
pub proof fn lemma_pred_lt_total(p: OutlivesPredicate, q: OutlivesPredicate)
    requires
        p != q,
    ensures
        pred_lt(p, q) || pred_lt(q, p),
{
    if pred_key(p) == pred_key(q) {
        lemma_pred_key_injective(p, q);
    }
    lemma_lex_total(pred_key(p), pred_key(q));
}

fn push_region_key(v: &mut Vec<u64>, r: Region)
    ensures
        final(v)@ == old(v)@.add(region_key(r)),
{
    let (tag, a, b): (u64, u32, u32) = match r {
        Region::Static => (0, 0, 0),
        Region::EarlyBound(i) => (1, i, 0),
        Region::LateBound(d, i) => (2, d, i),
        Region::Empty => (3, 0, 0),
        Region::Erased => (4, 0, 0),
        Region::ClosureBound(i) => (5, i, 0),
        Region::Canonical(i) => (6, i, 0),
        Region::Scope(i) => (7, i, 0),
        Region::InferenceVar(i) => (8, i, 0),
        Region::Skolemized(i) => (9, i, 0),
        Region::FreeRegionAtCallSite(i) => (10, i, 0),
    };
    v.push(tag);
    v.push(a as u64);
    v.push(b as u64);
    assert(final(v)@ =~= old(v)@.add(region_key(r)));
}

fn key_of(p: &OutlivesPredicate) -> (r: Vec<u64>)
    ensures
        r@ == pred_key(*p),
{
    let mut v: Vec<u64> = Vec::new();
    match p.0 {
        Kind::TypeValue(t) => {
            v.push(0);
            match t {
                Ty::Param(i) => {
                    v.push(0);
                    v.push(i as u64);
                    v.push(0);
                },
                Ty::Projection(a) => {
                    v.push(1);
                    v.push(a.item as u64);
                    v.push(a.self_param as u64);
                },
                Ty::Interned(i) => {
                    v.push(2);
                    v.push(i as u64);
                    v.push(0);
                },
            }
            assert(v@ =~= kind_key(p.0));
        },
        Kind::RegionValue(r) => {
            v.push(1);
            push_region_key(&mut v, r);
            assert(v@ =~= kind_key(p.0));
        },
    }
    push_region_key(&mut v, p.1);
    v
}

fn lex_less(a: &Vec<u64>, b: &Vec<u64>) -> (r: bool)
    ensures
        r == lex_lt(a@, b@),
{
    let mut i: usize = 0;
    assert(a@.skip(0) =~= a@ && b@.skip(0) =~= b@);
    while i < a.len() && i < b.len()
        invariant
            i <= a@.len(),
            i <= b@.len(),
            lex_lt(a@, b@) == lex_lt(a@.skip(i as int), b@.skip(i as int)),
        decreases a@.len() - i,
    {
        if a[i] != b[i] {
            return a[i] < b[i];
        }
        assert(a@.skip(i as int).drop_first() =~= a@.skip(i + 1));
        assert(b@.skip(i as int).drop_first() =~= b@.skip(i + 1));
        i = i + 1;
    }
    false
}

/// Whether `p` comes before `q` in the canonical order.
pub fn precedes(p: &OutlivesPredicate, q: &OutlivesPredicate) -> (r: bool)
    ensures
        r == pred_lt(*p, *q),
{
    let kp = key_of(p);
    let kq = key_of(q);
    lex_less(&kp, &kq)
}

} // verus!
