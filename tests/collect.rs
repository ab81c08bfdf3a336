use outlives::collect::{insert_component_predicates, insert_outlives_predicate};
use outlives::kind::{AssocTypeRef, Component, Kind, OutlivesPredicate, Ty};
use outlives::region::{is_free_region, InternalError, Region};
use outlives::required::RequiredPredicates;

const A: Region = Region::EarlyBound(0);
const B: Region = Region::EarlyBound(1);
const U: u32 = 0;
const T_ITEM: AssocTypeRef = AssocTypeRef { item: 7, self_param: 1 };

/// `&'B U` is interned as 0, `for<'b> fn(<&'b T as Iterator>::Item)` as 1,
/// `Vec<U>` as 2, `&'A &'B u32` as 3, `<T as Iterator>::Item` in a box as 4,
/// a type holding an inference variable as 5, one holding an erased region as 6.
fn decompose(t: Ty) -> Vec<Component> {
    match t {
        Ty::Interned(0) => vec![Component::Region(B), Component::Param(U)],
        Ty::Interned(1) => vec![Component::EscapingProjection(T_ITEM)],
        Ty::Interned(2) => vec![Component::Param(U)],
        Ty::Interned(3) => vec![Component::Region(A), Component::Region(B)],
        Ty::Interned(4) => vec![Component::Projection(T_ITEM)],
        Ty::Interned(5) => vec![Component::Param(U), Component::UnresolvedInference],
        Ty::Interned(6) => vec![Component::Param(U), Component::Region(Region::Erased)],
        Ty::Param(p) => vec![Component::Param(p)],
        Ty::Projection(a) => vec![Component::Projection(a)],
        Ty::Interned(_) => vec![],
    }
}

fn held(p: &RequiredPredicates) -> Vec<OutlivesPredicate> {
    p.predicates().clone()
}

#[test]
fn classifier_free_regions() {
    assert_eq!(is_free_region(Region::Static), Ok(true));
    assert_eq!(is_free_region(Region::EarlyBound(3)), Ok(true));
    assert_eq!(is_free_region(Region::LateBound(0, 1)), Ok(false));
}

#[test]
fn classifier_unexpected_regions() {
    let bad = [
        Region::Empty,
        Region::Erased,
        Region::ClosureBound(0),
        Region::Canonical(1),
        Region::Scope(2),
        Region::InferenceVar(3),
        Region::Skolemized(4),
        Region::FreeRegionAtCallSite(5),
    ];
    for r in bad {
        assert_eq!(is_free_region(r), Err(InternalError::UnexpectedRegion(r)));
    }
}

#[test]
fn unexpected_outlived_records_nothing() {
    let bad = [Region::Empty, Region::Erased, Region::Scope(2), Region::InferenceVar(3)];
    for r in bad {
        for kind in [Kind::RegionValue(B), Kind::TypeValue(Ty::Interned(0)), Kind::TypeValue(Ty::Param(U))] {
            let mut p = RequiredPredicates::new();
            let res = insert_outlives_predicate(decompose, kind, r, &mut p);
            assert_eq!(res, Err(InternalError::UnexpectedRegion(r)));
            assert_eq!(p.len(), 0);
        }
    }
}

#[test]
fn late_bound_outlived_records_nothing() {
    let mut p = RequiredPredicates::new();
    let res = insert_outlives_predicate(decompose, Kind::TypeValue(Ty::Interned(0)), Region::LateBound(0, 0), &mut p);
    assert_eq!(res, Ok(()));
    assert_eq!(p.len(), 0);
}

#[test]
fn collect_twice_same_as_once() {
    let mut once = RequiredPredicates::new();
    insert_outlives_predicate(decompose, Kind::TypeValue(Ty::Interned(0)), A, &mut once).unwrap();
    let mut twice = RequiredPredicates::new();
    insert_outlives_predicate(decompose, Kind::TypeValue(Ty::Interned(0)), A, &mut twice).unwrap();
    insert_outlives_predicate(decompose, Kind::TypeValue(Ty::Interned(0)), A, &mut twice).unwrap();
    assert_eq!(held(&once), held(&twice));
    assert_eq!(twice.len(), 2);
}

#[test]
fn region_argument_against_region() {
    let mut p = RequiredPredicates::new();
    insert_outlives_predicate(decompose, Kind::RegionValue(B), A, &mut p).unwrap();
    assert_eq!(held(&p), vec![OutlivesPredicate(Kind::RegionValue(B), A)]);
}

#[test]
fn reference_to_param() {
    let mut p = RequiredPredicates::new();
    insert_outlives_predicate(decompose, Kind::TypeValue(Ty::Interned(0)), A, &mut p).unwrap();
    let got = held(&p);
    assert_eq!(got.len(), 2);
    assert!(got.contains(&OutlivesPredicate(Kind::RegionValue(B), A)));
    assert!(got.contains(&OutlivesPredicate(Kind::TypeValue(Ty::Param(U)), A)));
}

#[test]
fn escaping_projection_only() {
    for outlived in [A, B, Region::Static, Region::LateBound(1, 0)] {
        let mut p = RequiredPredicates::new();
        let res = insert_outlives_predicate(decompose, Kind::TypeValue(Ty::Interned(1)), outlived, &mut p);
        assert_eq!(res, Ok(()));
        assert_eq!(p.len(), 0);
    }
}

#[test]
fn projection_component() {
    let mut p = RequiredPredicates::new();
    insert_outlives_predicate(decompose, Kind::TypeValue(Ty::Interned(4)), A, &mut p).unwrap();
    assert_eq!(held(&p), vec![OutlivesPredicate(Kind::TypeValue(Ty::Projection(T_ITEM)), A)]);
}

#[test]
fn two_fields_share_predicate() {
    let mut p = RequiredPredicates::new();
    insert_outlives_predicate(decompose, Kind::TypeValue(Ty::Interned(0)), A, &mut p).unwrap();
    insert_outlives_predicate(decompose, Kind::TypeValue(Ty::Interned(2)), A, &mut p).unwrap();
    let want = OutlivesPredicate(Kind::TypeValue(Ty::Param(U)), A);
    assert_eq!(held(&p).iter().filter(|x| **x == want).count(), 1);
    assert_eq!(p.len(), 2);
}

#[test]
fn late_bound_argument_records_nothing() {
    for outlived in [A, Region::Static] {
        let mut p = RequiredPredicates::new();
        let res = insert_outlives_predicate(decompose, Kind::RegionValue(Region::LateBound(0, 2)), outlived, &mut p);
        assert_eq!(res, Ok(()));
        assert_eq!(p.len(), 0);
    }
}

#[test]
fn nested_references() {
    let mut p = RequiredPredicates::new();
    insert_outlives_predicate(decompose, Kind::TypeValue(Ty::Interned(3)), A, &mut p).unwrap();
    assert_eq!(
        held(&p),
        vec![OutlivesPredicate(Kind::RegionValue(A), A), OutlivesPredicate(Kind::RegionValue(B), A)]
    );
}

#[test]
fn deeply_nested_references() {
    let deep: Vec<Component> = (0..10_000u32).map(|i| Component::Region(Region::EarlyBound(i % 50))).collect();
    let mut p = RequiredPredicates::new();
    insert_component_predicates(&deep, Region::Static, &mut p).unwrap();
    assert_eq!(p.len(), 50);
}

#[test]
fn static_outlived() {
    let mut p = RequiredPredicates::new();
    insert_outlives_predicate(decompose, Kind::TypeValue(Ty::Param(U)), Region::Static, &mut p).unwrap();
    assert_eq!(held(&p), vec![OutlivesPredicate(Kind::TypeValue(Ty::Param(U)), Region::Static)]);
}

#[test]
fn unresolved_inference_is_error() {
    let mut p = RequiredPredicates::new();
    insert_outlives_predicate(decompose, Kind::RegionValue(B), A, &mut p).unwrap();
    let before = held(&p);
    let res = insert_outlives_predicate(decompose, Kind::TypeValue(Ty::Interned(5)), A, &mut p);
    assert_eq!(res, Err(InternalError::UnresolvedInference));
    assert_eq!(held(&p), before);
}

#[test]
fn unexpected_region_component_is_error() {
    let mut p = RequiredPredicates::new();
    let res = insert_outlives_predicate(decompose, Kind::TypeValue(Ty::Interned(6)), A, &mut p);
    assert_eq!(res, Err(InternalError::UnexpectedRegion(Region::Erased)));
    assert_eq!(p.len(), 0);
}

#[test]
fn unexpected_region_argument_is_error() {
    let mut p = RequiredPredicates::new();
    let res = insert_outlives_predicate(decompose, Kind::RegionValue(Region::Scope(4)), A, &mut p);
    assert_eq!(res, Err(InternalError::UnexpectedRegion(Region::Scope(4))));
    assert_eq!(p.len(), 0);
}

#[test]
fn first_error_is_reported() {
    let cs = vec![Component::Region(Region::Erased), Component::UnresolvedInference];
    let mut p = RequiredPredicates::new();
    assert_eq!(insert_component_predicates(&cs, A, &mut p), Err(InternalError::UnexpectedRegion(Region::Erased)));
    let cs = vec![Component::UnresolvedInference, Component::Region(Region::Erased)];
    assert_eq!(insert_component_predicates(&cs, A, &mut p), Err(InternalError::UnresolvedInference));
    assert_eq!(p.len(), 0);
}

#[test]
fn late_bound_outlived_skips_bad_argument() {
    let mut p = RequiredPredicates::new();
    let res = insert_outlives_predicate(decompose, Kind::TypeValue(Ty::Interned(5)), Region::LateBound(0, 0), &mut p);
    assert_eq!(res, Ok(()));
    assert_eq!(p.len(), 0);
}
