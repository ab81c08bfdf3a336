//! Inference of the implicit outlives requirements that a generic type
//! declaration must carry in its header.
//!
//! Each field of a declaration gives rise to obligations of the form
//! "`X` must outlive `'a`". The analysis decomposes `X` into atomic pieces and
//! keeps only those obligations that can be written on the declaration: the
//! ones whose regions are free (declared on the type, or `'static`).

pub mod region;
pub mod kind;
pub mod required;
pub mod collect;
pub mod objects;

