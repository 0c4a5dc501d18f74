//! A value computed on first use by a function given up front, kept in a
//! cell that is written at most once.

use vstd::prelude::*;

verus! {

/// std's cell written at most once, carried as it is.
#[verifier::external_type_specification]
#[verifier::external_body]
#[verifier::reject_recursive_types(T)]
pub struct ExOnceLock<T>(std::sync::OnceLock<T>);

/// `OnceLock::new`, which makes an empty cell; nothing is claimed of the
/// cell, which Verus does not look into.
pub assume_specification<T>[ std::sync::OnceLock::<T>::new ]() -> std::sync::OnceLock<T>;

/// A value computed on first use by the function `f`.
#[verifier::reject_recursive_types(T)]
pub struct LazyLock<T, F> {
    data: std::sync::OnceLock<T>,
    f: F,
}

impl<T, F> LazyLock<T, F> {
    /// The function that computes the value.
    pub closed spec fn init_fn(&self) -> F {
        self.f
    }

    /// A lazy value computed by `f` when it is first used.
    pub fn new(f: F) -> (res: LazyLock<T, F>)
        ensures
            res.init_fn() == f,
    {
        LazyLock { data: std::sync::OnceLock::new(), f }
    }
}

impl<T, F: Fn() -> T + Copy> LazyLock<T, F> {
    /// The value, computed by the function when the cell is still empty:
    /// always a value that the function can return. That later uses give
    /// back the value stored by the first one is left to std's cell and is
    /// not stated here.
    pub fn force(&self) -> (res: &T)
        requires
            self.init_fn().requires(()),
        ensures
            self.init_fn().ensures((), *res),
    {
        get_or_init(self)
    }
}

/// The value of the cell of `lazy`, computed by its function when the cell
/// is empty.
///
/// Trusted: calls std's `OnceLock::get_or_init` with the lazy value's own
/// function. The documentation says that it returns the cell's value,
/// first setting it to what the function returns when the cell is empty;
/// the cell is private to `LazyLock` and only set here, with that same
/// function, so the value is one the function returned. Left unsaid: that
/// a function that itself forces the same lazy value panics or deadlocks
/// (the contract cannot name that function's calls).
#[verifier::external_body]
fn get_or_init<T, F: Fn() -> T + Copy>(lazy: &LazyLock<T, F>) -> (res: &T)
    requires
        lazy.init_fn().requires(()),
    ensures
        lazy.init_fn().ensures((), *res),
{
    lazy.data.get_or_init(lazy.f)
}

} // verus!
