//! Small validation combinators: each checks a condition and, when it
//! fails, builds the caller's error with the caller's closure.

use vstd::prelude::*;
use vstd::std_specs::cmp::PartialEqSpec;

verus! {

/// `Ok(())` when `condition` holds, otherwise `Err` with the error built by `error`.
pub fn check<E, F: Fn() -> E>(condition: bool, error: F) -> (r: Result<(), E>)
    requires
        !condition ==> call_requires(error, ()),
    ensures
        r is Ok <==> condition,
        r matches Err(e) ==> call_ensures(error, (), e),
{
    if condition {
        Ok(())
    } else {
        Err(error())
    }
}

/// Checks `condition` on the value when there is one; `None` always passes.
pub fn optional<T, E, F: Fn(&T) -> Result<(), E>>(value: &Option<T>, condition: F) -> (r: Result<(), E>)
    requires
        value matches Some(v) ==> call_requires(condition, (&v,)),
    ensures
        value is None ==> r is Ok,
        value matches Some(v) ==> call_ensures(condition, (&v,), r),
{
    if let Some(value) = value {
        condition(value)
    } else {
        Ok(())
    }
}

} // verus!

verus! {

/// Whether some element of `array` compares equal to `value`.
pub open spec fn spec_contains<T: PartialEq>(array: Seq<T>, value: T) -> bool {
    exists|i: int| #![trigger array[i]] 0 <= i < array.len() && array[i].eq_spec(&value)
}

/// `Ok(())` when `value` occurs in `array`, otherwise `Err` with the error
/// that `error` builds from `value`.
pub fn contains<T: PartialEq, E, F: Fn(&T) -> E>(value: &T, array: &[T], error: F) -> (r: Result<(), E>)
    requires
        T::obeys_eq_spec(),
        !spec_contains(array@, *value) ==> call_requires(error, (value,)),
    ensures
        r is Ok <==> spec_contains(array@, *value),
        r matches Err(e) ==> call_ensures(error, (value,), e),
{
    let mut i: usize = 0;
    while i < array.len()
        invariant
            T::obeys_eq_spec(),
            i <= array@.len(),
            forall|j: int| 0 <= j < i ==> !(#[trigger] array@[j]).eq_spec(value),
        decreases array@.len() - i,
    {
        if array[i].eq(value) {
            return Ok(());
        }
        i += 1;
    }
    Err(error(value))
}

/// `Ok(())` when `slice` has at least one element.
pub fn not_empty<T, E, F: Fn() -> E>(slice: &[T], error: F) -> (r: Result<(), E>)
    requires
        slice@.len() == 0 ==> call_requires(error, ()),
    ensures
        r is Ok <==> slice@.len() != 0,
        r matches Err(e) ==> call_ensures(error, (), e),
{
    check(slice.len() != 0, error)
}

/// `Ok(())` when `f` maps `x` and `y` to equal keys.
pub fn equal_on<T, K: PartialEq, F: Fn(&T) -> K, E, G: Fn() -> E>(
    x: &T,
    y: &T,
    f: F,
    error: G,
) -> (r: Result<(), E>)
    requires
        K::obeys_eq_spec(),
        call_requires(f, (x,)),
        call_requires(f, (y,)),
        call_requires(error, ()),
    ensures
        exists|kx: K, ky: K|
            {
                &&& call_ensures(f, (x,), kx)
                &&& call_ensures(f, (y,), ky)
                &&& (r is Ok <==> kx.eq_spec(&ky))
            },
        r matches Err(e) ==> call_ensures(error, (), e),
{
    let kx = f(x);
    let ky = f(y);
    let same = kx.eq(&ky);
    check(same, error)
}

/// `Ok(())` when `n` is a multiple of `k`.
pub fn divisible_by<E, F: Fn() -> E>(n: u64, k: u64, error: F) -> (r: Result<(), E>)
    requires
        k != 0,
        n % k != 0 ==> call_requires(error, ()),
    ensures
        r is Ok <==> n % k == 0,
        r matches Err(e) ==> call_ensures(error, (), e),
{
    check(n % k == 0, error)
}

} // verus!
