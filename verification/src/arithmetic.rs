//! Functions that a caller hands in, such as arithmetic on numbers.
//!
//! A steady function can be called on anything and always gives the same result
//! for the same arguments, so a contract can speak of that result.
use vstd::prelude::*;

verus! {

/// Whether a function of one argument is steady.
pub open spec fn steady<A, R, F: Fn(A) -> R>(f: F) -> bool {
    &&& forall|a: A| #[trigger] f.requires((a,))
    &&& forall|a: A, r: R, s: R| #[trigger]
        f.ensures((a,), r) && #[trigger] f.ensures((a,), s) ==> r == s
}

/// What a steady function of one argument gives.
pub open spec fn applied<A, R, F: Fn(A) -> R>(f: F, a: A) -> R {
    choose|r: R| f.ensures((a,), r)
}

/// Whether a function of two arguments is steady.
pub open spec fn steady2<A, B, R, F: Fn(A, B) -> R>(f: F) -> bool {
    &&& forall|a: A, b: B| #[trigger] f.requires((a, b))
    &&& forall|a: A, b: B, r: R, s: R| #[trigger]
        f.ensures((a, b), r) && #[trigger] f.ensures((a, b), s) ==> r == s
}

/// What a steady function of two arguments gives.
pub open spec fn applied2<A, B, R, F: Fn(A, B) -> R>(f: F, a: A, b: B) -> R {
    choose|r: R| f.ensures((a, b), r)
}

/// Whether a function of three arguments is steady.
pub open spec fn steady3<A, B, C, R, F: Fn(A, B, C) -> R>(f: F) -> bool {
    &&& forall|a: A, b: B, c: C| #[trigger] f.requires((a, b, c))
    &&& forall|a: A, b: B, c: C, r: R, s: R| #[trigger]
        f.ensures((a, b, c), r) && #[trigger] f.ensures((a, b, c), s) ==> r == s
}

/// What a steady function of three arguments gives.
pub open spec fn applied3<A, B, C, R, F: Fn(A, B, C) -> R>(f: F, a: A, b: B, c: C) -> R {
    choose|r: R| f.ensures((a, b, c), r)
}

/// The sum of a list of whole numbers.
pub open spec fn added_up(list: Seq<int>) -> int
    decreases list.len(),
{
    if list.len() == 0 {
        0
    } else {
        added_up(list.drop_last()) + list.last()
    }
}

} // verus!
