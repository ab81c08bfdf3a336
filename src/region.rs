//! Regions, and the classifier that decides which of them a declaration can name.
use vstd::prelude::*;

verus! {

/// A region (lifetime) as it may occur inside a type.
#[derive(Clone, Copy, Debug, PartialEq, Eq, Structural)]
pub enum Region {
    /// `'static`.
    Static,
    /// A lifetime parameter declared on the type, by its index.
    EarlyBound(u32),
    /// A region bound by a function-pointer binder: binder depth and index.
    LateBound(u32, u32),
    /// The regions below only arise in later inference and borrow-checking
    /// stages; they never occur in a type read from a declaration.
    Empty,
    Erased,
    ClosureBound(u32),
    Canonical(u32),
    Scope(u32),
    InferenceVar(u32),
    Skolemized(u32),
    FreeRegionAtCallSite(u32),
}

/// A failure that points at a defect in an earlier stage of the analysis.
/// It aborts the analysis of the current declaration only.
#[derive(Clone, Copy, Debug, PartialEq, Eq, Structural)]
pub enum InternalError {
    /// A region that cannot occur in a declaration-time type was met.
    UnexpectedRegion(Region),
    /// Decomposition produced an unresolved inference variable.
    UnresolvedInference,
}

/// A region that a declaration's header can name: `'static` or one of its
/// own lifetime parameters.
pub open spec fn is_free(r: Region) -> bool {
    r is Static || r is EarlyBound
}

/// A region that may occur in a type read from a declaration: a free one, or
/// one bound by a function-pointer binder inside it.
pub open spec fn is_declaration_region(r: Region) -> bool {
    is_free(r) || r is LateBound
}

/// Whether `region` is free. A late-bound region is not; a region that cannot
/// occur at this stage is an internal error.
pub fn is_free_region(region: Region) -> (r: Result<bool, InternalError>)
    ensures
        is_declaration_region(region) ==> r == Ok::<bool, InternalError>(is_free(region)),
        !is_declaration_region(region) ==> r == Err::<bool, InternalError>(
            InternalError::UnexpectedRegion(region),
        ),
{
    match region {
        Region::Static | Region::EarlyBound(_) => Ok(true),
        Region::LateBound(..) => Ok(false),
        Region::Empty
        | Region::Erased
        | Region::ClosureBound(..)
        | Region::Canonical(..)
        | Region::Scope(..)
        | Region::InferenceVar(..)
        | Region::Skolemized(..)
        | Region::FreeRegionAtCallSite(..) => Err(InternalError::UnexpectedRegion(region)),
    }
}

} // verus!
