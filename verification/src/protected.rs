//! The slot of a protected type that is filled in once its body has been analyzed.

use vstd::prelude::*;
use arc_swap::ArcSwapOption;

use crate::syntax::SrcPos;

verus! {

/// Where the body of a protected type was declared, once it is known.
///
/// The slot is an `arc_swap::ArcSwapOption`, whose strategy type Verus cannot be
/// told about, so the slot is held here and reached only through the functions below.
#[verifier::external_body]
#[derive(Debug)]
pub struct ProtectedBody {
    slot: ArcSwapOption<SrcPos>,
}

/// The positions that a slot holds: none, or the one that was stored in it.
pub uninterp spec fn protected_body_contents(b: ProtectedBody) -> Seq<SrcPos>;

/// An empty slot, made by `ArcSwapOption::default`, which stores `None`
/// (arc-swap's `Default` for `ArcSwapAny` is `Self::new(T::default())`).
#[verifier::external_body]
pub(crate) fn empty_protected_body() -> (b: ProtectedBody)
    ensures
        protected_body_contents(b) == Seq::<SrcPos>::empty(),
{
    ProtectedBody { slot: ArcSwapOption::default() }
}

impl ProtectedBody {
    /// A slot that holds no position yet.
    pub fn empty() -> (b: ProtectedBody)
        ensures
            protected_body_contents(b) == Seq::<SrcPos>::empty(),
    {
        empty_protected_body()
    }
}

} // verus!
