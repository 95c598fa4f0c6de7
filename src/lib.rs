use vstd::prelude::*;

pub mod token;
pub mod signature;
pub mod expression;

verus! {

/// Why a transformation was refused.
#[derive(Clone, Copy, Debug, PartialEq, Eq, Structural)]
pub enum CurryError {
    /// The declaration takes a receiver (`self`), which cannot be curried.
    UnsupportedReceiver,
    /// The expression form names no target or holds no call group.
    MalformedExpression,
}

} // verus!
