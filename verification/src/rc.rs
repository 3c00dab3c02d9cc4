//! Shared, reference counted pointers: `Rc`, and `RefCount`, whose count
//! can be read through the type itself.
use vstd::prelude::*;

verus! {

/// The number of `Rc`s that share the allocation of `rc`: std's
/// `Rc::strong_count`. It depends on the other pointers alive at the
/// time of the call, so nothing is stated of it.
#[verifier::external_body]
fn rc_strong_count<T>(rc: &std::rc::Rc<T>) -> usize {
    std::rc::Rc::strong_count(rc)
}

/// Another pointer to the allocation of `rc`: std's `Rc::clone`, which
/// its documentation says points to the same value.
#[verifier::external_body]
fn rc_share<T>(rc: &std::rc::Rc<T>) -> (r: std::rc::Rc<T>)
    ensures
        r == *rc,
{
    std::rc::Rc::clone(rc)
}

/// A value shared by all the clones of one `Rc`, dropped with the last
/// of them.
pub struct Rc<T> {
    inner: std::rc::Rc<T>,
}

impl<T> Rc<T> {
    /// The shared value.
    pub closed spec fn value(self) -> T {
        *self.inner
    }

    /// A new allocation holding `data`, with a count of one.
    pub fn new(data: T) -> (r: Self)
        ensures
            r.value() == data,
    {
        Rc { inner: std::rc::Rc::new(data) }
    }

    /// The shared value.
    pub fn get(&self) -> (r: &T)
        ensures
            *r == self.value(),
    {
        &*self.inner
    }

    /// The number of pointers that share this allocation.
    pub fn strong_count(&self) -> usize {
        rc_strong_count(&self.inner)
    }

}

impl<T> Clone for Rc<T> {
    /// Another pointer to the same value, which adds one to the count.
    fn clone(&self) -> (r: Self)
        ensures
            r.value() == self.value(),
    {
        Rc { inner: rc_share(&self.inner) }
    }
}

/// What a `RefCount` points to: the value.
pub struct RefCountInner<T> {
    inner: T,
}

/// A reference counted pointer whose count can be read with
/// `RefCount::count`.
pub struct RefCount<T> {
    inner: std::rc::Rc<RefCountInner<T>>,
}

impl<T> RefCount<T> {
    /// The shared value.
    pub closed spec fn value(self) -> T {
        self.inner.inner
    }

    /// A new allocation holding `value`, with a count of one.
    pub fn new(value: T) -> (r: Self)
        ensures
            r.value() == value,
    {
        RefCount { inner: std::rc::Rc::new(RefCountInner { inner: value }) }
    }

    /// The shared value.
    pub fn get(&self) -> (r: &T)
        ensures
            *r == self.value(),
    {
        &self.inner.inner
    }

    /// The number of pointers that share the allocation of `s`.
    pub fn count(s: &Self) -> usize {
        rc_strong_count(&s.inner)
    }

}

impl<T> Clone for RefCount<T> {
    /// Another pointer to the same value, which adds one to the count.
    fn clone(&self) -> (r: Self)
        ensures
            r.value() == self.value(),
    {
        RefCount { inner: rc_share(&self.inner) }
    }
}

} // verus!
