use vstd::prelude::*;

verus! {

/// `f` accepts every pair of arguments and gives one result for each pair.
pub open spec fn total_fn2<A, R, F: Fn(A, A) -> R>(f: F) -> bool {
    &&& forall|a: A, b: A| #[trigger] f.requires((a, b))
    &&& forall|a: A, b: A, r1: R, r2: R|
        #![trigger f.ensures((a, b), r1), f.ensures((a, b), r2)]
        f.ensures((a, b), r1) && f.ensures((a, b), r2) ==> r1 == r2
}

/// The result of `f` on `(a, b)`, for a function that is `total_fn2`.
pub open spec fn apply2<A, R, F: Fn(A, A) -> R>(f: F, a: A, b: A) -> R {
    choose|r: R| f.ensures((a, b), r)
}

/// For a `total_fn2` function, any result it may give on `(a, b)` is
/// `apply2(f, a, b)`.
pub proof fn lemma_apply2<A, R, F: Fn(A, A) -> R>(f: F, a: A, b: A, r: R)
    requires
        total_fn2(f),
        f.ensures((a, b), r),
    ensures
        apply2(f, a, b) == r,
{
    let c = apply2(f, a, b);
    assert(f.ensures((a, b), c));
}

/// Calls `f` on `(a, b)`.
pub(crate) fn call2<A, R, F: Fn(A, A) -> R>(f: &F, a: A, b: A) -> (r: R)
    requires
        total_fn2(*f),
    ensures
        r == apply2(*f, a, b),
{
    let r = f(a, b);
    proof {
        lemma_apply2(*f, a, b, r);
    }
    r
}

} // verus!
