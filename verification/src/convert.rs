//! Conversions that need a context (such as a GL context) to build the value.

use vstd::prelude::*;

verus! {

/// Builds `Self` from a `T` with the help of a context `C`.
pub trait FromWithContext<C, T, E>: Sized {
    fn from_with_context(context: &C, value: T) -> Result<Self, E>;
}

/// The converse view of [`FromWithContext`], implemented for every type.
pub trait IntoWithContext<C, T, E> {
    fn into_with_context(self, context: &C) -> Result<T, E>;
}

impl<C, T, U: FromWithContext<C, T, E>, E> IntoWithContext<C, U, E> for T {
    fn into_with_context(self, context: &C) -> (r: Result<U, E>)
        ensures
            call_ensures(U::from_with_context, (context, self), r),
    {
        U::from_with_context(context, self)
    }
}

} // verus!
