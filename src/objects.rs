//! Views of a value through the traits it implements.
use vstd::prelude::*;

verus! {

/// A value that accepts arguments of type `T`.
pub trait Bar<T> {
    fn bar(&self, x: &T);
}

/// A value that accepts values of its own type.
pub trait Baz: Bar<Self> where Self: Sized {
}

/// A value seen through `Bar<u32>`.
pub fn make_bar<T: Bar<u32>>(t: &T) -> (r: &dyn Bar<u32>)
{
    t
}

/// A value seen through `Baz`. `Baz` mentions `Self` in its supertrait, so it
/// cannot be a trait object; the value is handed on as it is.
pub fn make_baz<T: Baz>(t: &T) -> (r: &T)
    ensures
        *r == *t,
{
    t
}

} // verus!
