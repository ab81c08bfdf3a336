//! Collection of the outlives predicates that one field of a declaration
//! requires of the declaration's header.
use vstd::prelude::*;
use crate::kind::{AssocTypeRef, Component, Kind, OutlivesPredicate, Ty};
use crate::region::{InternalError, Region, is_declaration_region, is_free, is_free_region};
use crate::required::{RequiredPredicates, lemma_canonical_order, lemma_held_once};

verus! {

/// The predicates that one component of a type requires against a free
/// `outlived` region.
pub open spec fn component_required(c: Component, outlived: Region) -> Set<OutlivesPredicate> {
    match c {
        Component::Region(r) => if is_free(r) {
            set![OutlivesPredicate(Kind::RegionValue(r), outlived)]
        } else {
            Set::empty()
        },
        Component::Param(p) => set![OutlivesPredicate(Kind::TypeValue(Ty::Param(p)), outlived)],
        Component::Projection(a) => set![
            OutlivesPredicate(Kind::TypeValue(Ty::Projection(a)), outlived),
        ],
        Component::EscapingProjection(_) => Set::empty(),
        Component::UnresolvedInference => Set::empty(),
    }
}

/// The predicates that a sequence of components requires against a free
/// `outlived` region.
pub open spec fn components_required(cs: Seq<Component>, outlived: Region) -> Set<
    OutlivesPredicate,
>
    decreases cs.len(),
{
    if cs.len() == 0 {
        Set::empty()
    } else {
        components_required(cs.drop_last(), outlived).union(component_required(cs.last(), outlived))
    }
}

/// The internal error that a component signals, if any.
pub open spec fn component_error(c: Component) -> Option<InternalError> {
    match c {
        Component::Region(r) => if is_declaration_region(r) {
            None
        } else {
            Some(InternalError::UnexpectedRegion(r))
        },
        Component::UnresolvedInference => Some(InternalError::UnresolvedInference),
        _ => None,
    }
}

/// The error of the first component that signals one.
pub open spec fn first_error(cs: Seq<Component>) -> Option<InternalError>
    decreases cs.len(),
{
    if cs.len() == 0 {
        None
    } else if component_error(cs[0]) is Some {
        component_error(cs[0])
    } else {
        first_error(cs.drop_first())
    }
}

/// What collecting from the components `cs` against `outlived` owes: the
/// predicates to add, or the internal error met. Nothing is recorded against
/// a region that is not free.
pub open spec fn components_outcome(cs: Seq<Component>, outlived: Region) -> Result<
    Set<OutlivesPredicate>,
    InternalError,
> {
    if !is_declaration_region(outlived) {
        Err(InternalError::UnexpectedRegion(outlived))
    } else if !is_free(outlived) {
        Ok(Set::empty())
    } else {
        match first_error(cs) {
            Some(e) => Err(e),
            None => Ok(components_required(cs, outlived)),
        }
    }
}

/// The call returned `r` and took the set from `before` to `after` as
/// `outcome` asks: on success the owed predicates were added, on an error the
/// set is left as it was.
pub open spec fn applied(
    outcome: Result<Set<OutlivesPredicate>, InternalError>,
    r: Result<(), InternalError>,
    before: RequiredPredicates,
    after: RequiredPredicates,
) -> bool {
    after.wf() && match outcome {
        Ok(s) => r is Ok && after.set() == before.set().union(s),
        Err(e) => r == Err::<(), InternalError>(e) && after@ == before@,
    }
}

/// What `insert_outlives_predicate(decompose, kind, outlived, _)` did when it
/// returned `r` and took the set from `before` to `after`. A region argument
/// is treated as a type made of that one region; a type argument is
/// decomposed only against a free `outlived` region.
pub open spec fn collected<F: Fn(Ty) -> Vec<Component>>(
    decompose: F,
    kind: Kind,
    outlived: Region,
    r: Result<(), InternalError>,
    before: RequiredPredicates,
    after: RequiredPredicates,
) -> bool {
    match kind {
        Kind::RegionValue(x) => applied(
            components_outcome(seq![Component::Region(x)], outlived),
            r,
            before,
            after,
        ),
        Kind::TypeValue(t) => if is_free(outlived) {
            exists|cs: Vec<Component>|
                #[trigger] call_ensures(decompose, (t,), cs) && applied(
                    components_outcome(cs@, outlived),
                    r,
                    before,
                    after,
                )
        } else {
            applied(components_outcome(Seq::empty(), outlived), r, before, after)
        },
    }
}

fn check_component(c: &Component) -> (r: Result<(), InternalError>)
    ensures
        match component_error(*c) {
            Some(e) => r == Err::<(), InternalError>(e),
            None => r is Ok,
        },
{
    match *c {
        Component::Region(region) => match is_free_region(region) {
            Ok(_) => Ok(()),
            Err(e) => Err(e),
        },
        Component::UnresolvedInference => Err(InternalError::UnresolvedInference),
        _ => Ok(()),
    }
}

fn insert_component(c: Component, outlived: Region, preds: &mut RequiredPredicates)
    requires
        old(preds).wf(),
        is_free(outlived),
        component_error(c) is None,
    ensures
        final(preds).wf(),
        final(preds).set() == old(preds).set().union(component_required(c, outlived)),
{
    let ghost before = preds.set();
    match c {
        Component::Region(r) => {
            if let Ok(true) = is_free_region(r) {
                let p = OutlivesPredicate(Kind::RegionValue(r), outlived);
                preds.insert(p);
                assert(preds.set() =~= before.union(set![p]));
            } else {
                assert(preds.set() =~= before.union(Set::empty()));
            }
        },
        Component::Param(i) => {
            let p = OutlivesPredicate(Kind::TypeValue(Ty::Param(i)), outlived);
            preds.insert(p);
            assert(preds.set() =~= before.union(set![p]));
        },
        Component::Projection(a) => {
            let p = OutlivesPredicate(Kind::TypeValue(Ty::Projection(a)), outlived);
            preds.insert(p);
            assert(preds.set() =~= before.union(set![p]));
        },
        Component::EscapingProjection(_) => {
            assert(preds.set() =~= before.union(Set::empty()));
        },
        Component::UnresolvedInference => {},
    }
}

/// Records, against `outlived_region`, what the components of a type
/// require: each free region, each type parameter and each projection, but no
/// escaping projection. Either every owed predicate is added or, on an
/// internal error, none is.
pub fn insert_component_predicates(
    components: &Vec<Component>,
    outlived_region: Region,
    required_predicates: &mut RequiredPredicates,
) -> (r: Result<(), InternalError>)
    requires
        old(required_predicates).wf(),
    ensures
        applied(
            components_outcome(components@, outlived_region),
            r,
            *old(required_predicates),
            *final(required_predicates),
        ),
{
    match is_free_region(outlived_region) {
        Err(e) => return Err(e),
        Ok(false) => {
            assert(required_predicates.set().union(Set::empty()) =~= required_predicates.set());
            return Ok(());
        },
        Ok(true) => {},
    }
    // Check every component before inserting any, so that an internal error
    // leaves the set as it was.
    let ghost cs = components@;
    let mut i: usize = 0;
    assert(cs.skip(0) =~= cs);
    while i < components.len()
        invariant
            cs == components@,
            i <= cs.len(),
            is_free(outlived_region),
            *required_predicates == *old(required_predicates),
            required_predicates.wf(),
            first_error(cs) == first_error(cs.skip(i as int)),
            forall|j: int| 0 <= j < i ==> (#[trigger] component_error(cs[j])) is None,
        decreases cs.len() - i,
    {
        match check_component(&components[i]) {
            Err(e) => {
                assert(cs.skip(i as int)[0] == cs[i as int]);
                return Err(e);
            },
            Ok(()) => {},
        }
        assert(cs.skip(i as int).drop_first() =~= cs.skip(i + 1));
        i = i + 1;
    }
    assert(first_error(cs.skip(i as int)) is None);
    let ghost before = required_predicates.set();
    let mut k: usize = 0;
    assert(cs.take(0) =~= Seq::<Component>::empty());
    assert(before.union(Set::empty()) =~= before);
    while k < components.len()
        invariant
            cs == components@,
            k <= cs.len(),
            is_free(outlived_region),
            forall|j: int| 0 <= j < cs.len() ==> (#[trigger] component_error(cs[j])) is None,
            required_predicates.wf(),
            required_predicates.set() == before.union(components_required(cs.take(k as int), outlived_region)),
        decreases cs.len() - k,
    {
        insert_component(components[k], outlived_region, required_predicates);
        assert(cs.take(k + 1).drop_last() =~= cs.take(k as int));
        assert(required_predicates.set() =~= before.union(
            components_required(cs.take(k + 1), outlived_region),
        ));
        k = k + 1;
    }
    assert(cs.take(k as int) =~= cs);
    Ok(())
}

/// Records what "`kind` must outlive `outlived_region`" requires of the
/// declaration's header. A type argument is broken into its components by
/// `decompose`; a region argument stands for itself. Nothing is recorded
/// against a region that is not free, nor for a region argument that is not
/// free; a region that cannot occur in a declaration, or an unresolved
/// inference variable, is an internal error and leaves the set unchanged.
pub fn insert_outlives_predicate<F: Fn(Ty) -> Vec<Component>>(
    decompose: F,
    kind: Kind,
    outlived_region: Region,
    required_predicates: &mut RequiredPredicates,
) -> (r: Result<(), InternalError>)
    requires
        old(required_predicates).wf(),
        forall|t: Ty| call_requires(decompose, (t,)),
    ensures
        collected(
            decompose,
            kind,
            outlived_region,
            r,
            *old(required_predicates),
            *final(required_predicates),
        ),
{
    match kind {
        Kind::RegionValue(region) => {
            let mut single: Vec<Component> = Vec::new();
            single.push(Component::Region(region));
            assert(single@ =~= seq![Component::Region(region)]);
            insert_component_predicates(&single, outlived_region, required_predicates)
        },
        Kind::TypeValue(t) => {
            match is_free_region(outlived_region) {
                Err(e) => return Err(e),
                Ok(false) => {
                    assert(required_predicates.set().union(Set::empty()) =~= required_predicates.set());
                    return Ok(());
                },
                Ok(true) => {},
            }
            let components = decompose(t);
            let r = insert_component_predicates(&components, outlived_region, required_predicates);
            assert(call_ensures(decompose, (t,), components));
            r
        },
    }
}

proof fn lemma_required_has_param(cs: Seq<Component>, outlived: Region, param: u32)
    requires
        cs.contains(Component::Param(param)),
    ensures
        components_required(cs, outlived).contains(
            OutlivesPredicate(Kind::TypeValue(Ty::Param(param)), outlived),
        ),
    decreases cs.len(),
{
    if cs.last() != Component::Param(param) {
        let k = choose|k: int| 0 <= k < cs.len() && cs[k] == Component::Param(param);
        assert(cs.drop_last()[k] == Component::Param(param));
        lemma_required_has_param(cs.drop_last(), outlived, param);
    }
}

proof fn lemma_escaping_required_nothing(cs: Seq<Component>, outlived: Region)
    requires
        forall|i: int| 0 <= i < cs.len() ==> cs[i] is EscapingProjection,
    ensures
        components_required(cs, outlived) == Set::<OutlivesPredicate>::empty(),
    decreases cs.len(),
{
    if cs.len() > 0 {
        lemma_escaping_required_nothing(cs.drop_last(), outlived);
        assert(Set::<OutlivesPredicate>::empty().union(Set::empty()) =~= Set::empty());
    }
}

proof fn lemma_escaping_no_error(cs: Seq<Component>)
    requires
        forall|i: int| 0 <= i < cs.len() ==> cs[i] is EscapingProjection,
    ensures
        first_error(cs) is None,
    decreases cs.len(),
{
    if cs.len() > 0 {
        lemma_escaping_no_error(cs.drop_first());
    }
}

/// Against a region that cannot occur in a declaration, collecting records
/// nothing, whatever the argument, and reports that region.
pub proof fn lemma_unexpected_outlived_records_nothing<F: Fn(Ty) -> Vec<Component>>(
    decompose: F,
    kind: Kind,
    outlived: Region,
    r: Result<(), InternalError>,
    before: RequiredPredicates,
    after: RequiredPredicates,
)
    requires
        !is_declaration_region(outlived),
        collected(decompose, kind, outlived, r, before, after),
    ensures
        after@ == before@,
        r == Err::<(), InternalError>(InternalError::UnexpectedRegion(outlived)),
{
}

/// Collecting from the same components against the same region a second
/// time leaves the set as the first time left it.
pub proof fn lemma_components_idempotent(
    cs: Seq<Component>,
    outlived: Region,
    r1: Result<(), InternalError>,
    r2: Result<(), InternalError>,
    p0: RequiredPredicates,
    p1: RequiredPredicates,
    p2: RequiredPredicates,
)
    requires
        p0.wf(),
        applied(components_outcome(cs, outlived), r1, p0, p1),
        applied(components_outcome(cs, outlived), r2, p1, p2),
    ensures
        p2@ == p1@,
        r2 == r1,
{
    if let Ok(s) = components_outcome(cs, outlived) {
        assert(r1->Ok_0 == () && r2->Ok_0 == ());
        assert(p2.set() =~= p1.set());
        lemma_canonical_order(p2, p1);
    }
}

/// Collecting the same argument against the same region twice leaves the set
/// as collecting it once did, given a decomposer that answers the same for
/// the same type.
pub proof fn lemma_collect_idempotent<F: Fn(Ty) -> Vec<Component>>(
    decompose: F,
    kind: Kind,
    outlived: Region,
    r1: Result<(), InternalError>,
    r2: Result<(), InternalError>,
    p0: RequiredPredicates,
    p1: RequiredPredicates,
    p2: RequiredPredicates,
)
    requires
        forall|t: Ty, c1: Vec<Component>, c2: Vec<Component>|
            call_ensures(decompose, (t,), c1) && call_ensures(decompose, (t,), c2) ==> c1@ == c2@,
        p0.wf(),
        collected(decompose, kind, outlived, r1, p0, p1),
        collected(decompose, kind, outlived, r2, p1, p2),
    ensures
        p2@ == p1@,
        r2 == r1,
{
    match kind {
        Kind::RegionValue(x) => {
            lemma_components_idempotent(seq![Component::Region(x)], outlived, r1, r2, p0, p1, p2);
        },
        Kind::TypeValue(t) => {
            if is_free(outlived) {
                let c1 = choose|c1: Vec<Component>|
                    #[trigger] call_ensures(decompose, (t,), c1) && applied(
                        components_outcome(c1@, outlived),
                        r1,
                        p0,
                        p1,
                    );
                let c2 = choose|c2: Vec<Component>|
                    #[trigger] call_ensures(decompose, (t,), c2) && applied(
                        components_outcome(c2@, outlived),
                        r2,
                        p1,
                        p2,
                    );
                assert(c1@ == c2@);
                lemma_components_idempotent(c1@, outlived, r1, r2, p0, p1, p2);
            } else {
                lemma_components_idempotent(Seq::empty(), outlived, r1, r2, p0, p1, p2);
            }
        },
    }
}

/// A type whose decomposition holds escaping projections only adds nothing,
/// whatever the region.
pub proof fn lemma_escaping_only_records_nothing<F: Fn(Ty) -> Vec<Component>>(
    decompose: F,
    t: Ty,
    outlived: Region,
    r: Result<(), InternalError>,
    before: RequiredPredicates,
    after: RequiredPredicates,
)
    requires
        forall|cs: Vec<Component>, i: int|
            call_ensures(decompose, (t,), cs) && 0 <= i < cs@.len() ==> cs@[i] is EscapingProjection,
        before.wf(),
        collected(decompose, Kind::TypeValue(t), outlived, r, before, after),
    ensures
        after@ == before@,
{
    if is_free(outlived) {
        let cs = choose|cs: Vec<Component>|
            #[trigger] call_ensures(decompose, (t,), cs) && applied(
                components_outcome(cs@, outlived),
                r,
                before,
                after,
            );
        lemma_escaping_no_error(cs@);
        lemma_escaping_required_nothing(cs@, outlived);
        assert(after.set() =~= before.set());
        lemma_canonical_order(after, before);
    } else if is_declaration_region(outlived) {
        assert(after.set() =~= before.set());
        lemma_canonical_order(after, before);
    }
}

/// When two fields both require a type parameter to outlive the same free
/// region, the merged set holds that predicate, and at one place only.
pub proof fn lemma_shared_predicate_held_once<F: Fn(Ty) -> Vec<Component>>(
    decompose: F,
    t1: Ty,
    t2: Ty,
    param: u32,
    outlived: Region,
    r1: Result<(), InternalError>,
    r2: Result<(), InternalError>,
    p0: RequiredPredicates,
    p1: RequiredPredicates,
    p2: RequiredPredicates,
    i: int,
    j: int,
)
    requires
        is_free(outlived),
        forall|cs: Vec<Component>|
            call_ensures(decompose, (t1,), cs) ==> cs@.contains(Component::Param(param)),
        forall|cs: Vec<Component>|
            call_ensures(decompose, (t2,), cs) ==> cs@.contains(Component::Param(param)),
        collected(decompose, Kind::TypeValue(t1), outlived, r1, p0, p1),
        collected(decompose, Kind::TypeValue(t2), outlived, r2, p1, p2),
        r1 is Ok,
        r2 is Ok,
        0 <= i < p2@.len(),
        0 <= j < p2@.len(),
        p2@[i] == OutlivesPredicate(Kind::TypeValue(Ty::Param(param)), outlived),
        p2@[j] == OutlivesPredicate(Kind::TypeValue(Ty::Param(param)), outlived),
    ensures
        p2.set().contains(OutlivesPredicate(Kind::TypeValue(Ty::Param(param)), outlived)),
        i == j,
{
    let cs = choose|cs: Vec<Component>|
        #[trigger] call_ensures(decompose, (t2,), cs) && applied(
            components_outcome(cs@, outlived),
            r2,
            p1,
            p2,
        );
    lemma_required_has_param(cs@, outlived, param);
    lemma_held_once(p2, i, j);
}

/// A late-bound region argument records nothing against a free region, and
/// is no error.
pub proof fn lemma_late_bound_argument_records_nothing<F: Fn(Ty) -> Vec<Component>>(
    decompose: F,
    depth: u32,
    index: u32,
    outlived: Region,
    r: Result<(), InternalError>,
    before: RequiredPredicates,
    after: RequiredPredicates,
)
    requires
        is_free(outlived),
        before.wf(),
        collected(
            decompose,
            Kind::RegionValue(Region::LateBound(depth, index)),
            outlived,
            r,
            before,
            after,
        ),
    ensures
        r is Ok,
        after@ == before@,
{
    let cs = seq![Component::Region(Region::LateBound(depth, index))];
    assert(first_error(cs.drop_first()) is None);
    assert(first_error(cs) is None);
    assert(components_required(cs.drop_last(), outlived) == Set::<OutlivesPredicate>::empty());
    assert(components_required(cs, outlived) =~= Set::<OutlivesPredicate>::empty());
    assert(after.set() =~= before.set());
    lemma_canonical_order(after, before);
}

} // verus!
