//! A generic helper for merging two optional values with a combining
//! function.

use vstd::prelude::*;

verus! {

/// Merges two optional values: when both are present the combining function
/// is applied, when exactly one is present it passes through unchanged, and
/// when neither is present the result is absent.
pub fn reduce<T, F: FnOnce(T, T) -> T>(a: Option<T>, b: Option<T>, f: F) -> (r: Option<T>)
    requires
        a is Some && b is Some ==> call_requires(f, (a->0, b->0)),
    ensures
        a is Some && b is Some ==> r is Some && call_ensures(f, (a->0, b->0), r->0),
        a is Some && b is None ==> r == a,
        a is None && b is Some ==> r == b,
        a is None && b is None ==> r is None,
{
    match (a, b) {
        (Some(l), Some(r)) => Some(f(l, r)),
        (Some(l), None) => Some(l),
        (None, Some(r)) => Some(r),
        (None, None) => None,
    }
}

/// Method form of [`reduce`] for `Option` receivers.
pub trait OptionExt: Sized {
    type T;

    /// The receiver, seen as the optional value it merges.
    spec fn opt_view(self) -> Option<Self::T>;

    fn reduce<F: FnOnce(Self::T, Self::T) -> Self::T>(self, other: Option<Self::T>, f: F) -> (r:
        Option<Self::T>)
        requires
            self.opt_view() is Some && other is Some ==> call_requires(
                f,
                (self.opt_view()->0, other->0),
            ),
        ensures
            self.opt_view() is Some && other is Some ==> r is Some && call_ensures(
                f,
                (self.opt_view()->0, other->0),
                r->0,
            ),
            self.opt_view() is Some && other is None ==> r == self.opt_view(),
            self.opt_view() is None && other is Some ==> r == other,
            self.opt_view() is None && other is None ==> r is None,
    ;
}

impl<T> OptionExt for Option<T> {
    type T = T;

    open spec fn opt_view(self) -> Option<T> {
        self
    }

    fn reduce<F: FnOnce(T, T) -> T>(self, other: Option<T>, f: F) -> (r: Option<T>) {
        reduce(self, other, f)
    }
}

} // verus!
