//! Single-entry handles for the table: a shared handle and an exclusive one.
//!
//! Under concurrency each such handle carries a detached lock guard next
//! to the borrow, and dropping the handle releases the shard. Verified code
//! has no user destructors, so here the borrow itself is the guard: a handle
//! borrows the table for its whole lifetime, which excludes conflicting
//! access exactly as the shard lock does, and "dropping" it is letting the
//! borrow expire. The fields are public: writing through `RefMut::t` is what
//! the verifier tracks most precisely.

use vstd::prelude::*;

verus! {

/// A shared handle on one entry: the shard is read-locked for `'a`.
pub struct Ref<'a, T> {
    /// The borrowed entry.
    pub t: &'a T,
}

impl<'a, T> Ref<'a, T> {
    /// Wrap a borrow.
    pub fn new(t: &'a T) -> (r: Self)
        ensures
            r.t == t,
    {
        Ref { t }
    }

    /// The borrowed value.
    pub fn value(&self) -> (r: &'a T)
        ensures
            r == self.t,
    {
        self.t
    }

    /// Project the handle through an infallible view of the value.
    pub fn map<U, F: FnOnce(&'a T) -> &'a U>(self, f: F) -> (r: Ref<'a, U>)
        requires
            call_requires(f, (self.t,)),
        ensures
            call_ensures(f, (self.t,), r.t),
    {
        Ref { t: f(self.t) }
    }

    /// Project the handle through a partial view of the value; on failure
    /// the original handle comes back unchanged, shard still held.
    pub fn try_map<U, F: FnOnce(&'a T) -> Option<&'a U>>(self, f: F) -> (r: Result<
        Ref<'a, U>,
        Self,
    >)
        requires
            call_requires(f, (self.t,)),
        ensures
            match r {
                Ok(m) => call_ensures(f, (self.t,), Some(m.t)),
                Err(orig) => orig.t == self.t && call_ensures(f, (self.t,), None::<&'a U>),
            },
    {
        match f(self.t) {
            Some(u) => Ok(Ref { t: u }),
            None => Err(self),
        }
    }
}

/// An exclusive handle on one entry: the shard is write-locked for `'a`.
pub struct RefMut<'a, T> {
    /// The borrowed entry; writes through it land in the table when the
    /// handle expires.
    pub t: &'a mut T,
}

impl<'a, T> RefMut<'a, T> {
    /// Wrap a borrow.
    pub fn new(t: &'a mut T) -> (r: Self)
        ensures
            *r.t == *old(t),
            *final(r.t) == *final(t),
    {
        RefMut { t }
    }

    /// The borrowed value.
    pub fn value(&self) -> (r: &T)
        ensures
            *r == *old(self.t),
    {
        &*self.t
    }

    /// Demote the handle to a shared one. In the concurrent lock this is the
    /// atomic writer-to-reader transition: the value the writer last wrote
    /// is what every subsequent read sees, with no writer in between.
    pub fn downgrade(self) -> (r: Ref<'a, T>)
        ensures
            *r.t == *final(self.t),
            *old(self.t) == *final(self.t),
    {
        let RefMut { t } = self;
        Ref { t }
    }

    /// Project the handle through an infallible mutable view of the value:
    /// the result is what one call of `f` on the entry produced, a reborrow
    /// into it, with the shard still write-locked. The entry's final value
    /// is whatever the projection leaves behind, as `f`'s own contract
    /// relates it to the view.
    pub fn map<U, F: FnOnce(&'a mut T) -> &'a mut U>(self, f: F) -> (r: RefMut<'a, U>)
        requires
            forall|x: &mut T| #[trigger] call_requires(f, (x,)),
        ensures
            exists|x: &mut T, y: &mut U|
                {
                    &&& #[trigger] call_ensures(f, (x,), y)
                    &&& mut_ref_current(x) == *old(self.t)
                    &&& mut_ref_future(x) == *final(self.t)
                    &&& mut_ref_current(y) == *r.t
                    &&& mut_ref_future(y) == *final(r.t)
                },
    {
        let RefMut { t } = self;
        RefMut { t: f(t) }
    }

    /// Project the handle through a partial mutable view: `check` decides
    /// whether the projection applies, and `f` performs it. On success the
    /// result views the entry through `f`'s reborrow, shard still
    /// write-locked. On failure the original handle comes back with the
    /// shard still held and the entry untouched, so the projection can be
    /// retried or the handle reused.
    ///
    /// (A single closure returning `Option<&mut U>` cannot hand the borrow
    /// back on failure under the borrow rules this crate is checked by,
    /// which is why the test and the projection are two closures.)
    pub fn try_map<U, C: FnOnce(&T) -> bool, F: FnOnce(&'a mut T) -> &'a mut U>(
        self,
        check: C,
        f: F,
    ) -> (r: Result<RefMut<'a, U>, Self>)
        requires
            forall|x: &T| #[trigger] call_requires(check, (x,)),
            forall|x: &mut T| #[trigger] call_requires(f, (x,)),
        ensures
            match r {
                Ok(m) => {
                    &&& call_ensures(check, (&*old(self.t),), true)
                    &&& exists|x: &mut T, y: &mut U|
                        {
                            &&& #[trigger] call_ensures(f, (x,), y)
                            &&& mut_ref_current(x) == *old(self.t)
                            &&& mut_ref_future(x) == *final(self.t)
                            &&& mut_ref_current(y) == *m.t
                            &&& mut_ref_future(y) == *final(m.t)
                        }
                },
                Err(orig) => {
                    &&& *orig.t == *old(self.t)
                    &&& *final(orig.t) == *final(self.t)
                    &&& call_ensures(check, (&*old(self.t),), false)
                },
            },
    {
        if check(&*self.t) {
            let RefMut { t } = self;
            Ok(RefMut { t: f(t) })
        } else {
            Err(self)
        }
    }
}

} // verus!
