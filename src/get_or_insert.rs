use vstd::prelude::*;

verus! {

/// Types that can store a `T` in place and hand back a mutable reference to
/// the stored value.
///
/// `held` is what the receiver currently holds as a `T`: `Some(x)` when it is
/// in the state that carries a `T`, `None` otherwise.
pub trait GetOrInsert<T>: Sized {
    /// The `T` that the receiver holds, if it is in the state that carries one.
    /// Every implementation states its own; the default only lets impls that
    /// are compiled without verification, such as derived ones, leave it out.
    open spec fn held(&self) -> Option<T> {
        None
    }

    /// Stores `value`, dropping whatever the receiver held before, and returns
    /// a reference to the stored value.
    fn insert(&mut self, value: T) -> (r: &mut T)
        ensures
            *r == value,
            final(self).held() == Some(*final(r)),
    ;

    /// Returns the held `T`, or stores what `f` produces when there is none.
    /// `f` is called only when the receiver holds no `T`.
    fn get_or_insert_with<F: FnOnce() -> T>(&mut self, f: F) -> (r: &mut T)
        requires
            old(self).held() is None ==> f.requires(()),
        ensures
            match old(self).held() {
                Some(v) => *r == v,
                None => f.ensures((), *r),
            },
            final(self).held() == Some(*final(r)),
    ;

    /// Returns the held `T`, or stores `value` when there is none.
    fn get_or_insert(&mut self, value: T) -> (r: &mut T)
        ensures
            *r == match old(self).held() {
                Some(v) => v,
                None => value,
            },
            final(self).held() == Some(*final(r)),
    {
        self.get_or_insert_with(move || -> (v: T)
            ensures
                v == value,
            { value })
    }

    /// Returns the held `T`, or stores `T::default()` when there is none.
    fn get_or_insert_default(&mut self) -> (r: &mut T) where T: Default
        ensures
            match old(self).held() {
                Some(v) => *r == v,
                None => call_ensures(T::default, (), *r),
            },
            final(self).held() == Some(*final(r)),
    {
        self.get_or_insert_with(T::default)
    }
}

impl<T> GetOrInsert<T> for Option<T> {
    open spec fn held(&self) -> Option<T> {
        *self
    }

    fn insert(&mut self, value: T) -> (r: &mut T) {
        Option::insert(self, value)
    }

    fn get_or_insert_with<F: FnOnce() -> T>(&mut self, f: F) -> (r: &mut T) {
        match self {
            Some(v) => v,
            None => Option::insert(self, f()),
        }
    }
}

} // verus!
