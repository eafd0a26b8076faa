//! Single-entry handles for the map: a key with a shared or exclusive view
//! of its value.
//!
//! As everywhere in this crate, the borrow of the map is the shard lock:
//! dropping a handle is letting its borrow expire. The fields are public;
//! writing through `RefMut::v` is what the verifier tracks most precisely.

use vstd::prelude::*;

verus! {

/// A shared handle on one entry: the key and its value, shard read-locked.
pub struct Ref<'a, K, V> {
    /// The entry's key.
    pub k: &'a K,
    /// The entry's value.
    pub v: &'a V,
}

impl<'a, K, V> Ref<'a, K, V> {
    /// Wrap a pair of borrows.
    pub fn new(k: &'a K, v: &'a V) -> (r: Self)
        ensures
            r.k == k,
            r.v == v,
    {
        Ref { k, v }
    }

    /// The entry's key.
    pub fn key(&self) -> (r: &'a K)
        ensures
            r == self.k,
    {
        self.k
    }

    /// The entry's value.
    pub fn value(&self) -> (r: &'a V)
        ensures
            r == self.v,
    {
        self.v
    }

    /// The entry.
    pub fn pair(&self) -> (r: (&'a K, &'a V))
        ensures
            r.0 == self.k,
            r.1 == self.v,
    {
        (self.k, self.v)
    }

    /// Project the handle through an infallible view of the value.
    pub fn map<U, F: FnOnce(&'a V) -> &'a U>(self, f: F) -> (r: Ref<'a, K, U>)
        requires
            call_requires(f, (self.v,)),
        ensures
            r.k == self.k,
            call_ensures(f, (self.v,), r.v),
    {
        Ref { k: self.k, v: f(self.v) }
    }

    /// Project the handle through a partial view of the value; on failure
    /// the original handle comes back unchanged, shard still held.
    pub fn try_map<U, F: FnOnce(&'a V) -> Option<&'a U>>(self, f: F) -> (r: Result<
        Ref<'a, K, U>,
        Self,
    >)
        requires
            call_requires(f, (self.v,)),
        ensures
            match r {
                Ok(m) => m.k == self.k && call_ensures(f, (self.v,), Some(m.v)),
                Err(orig) => orig.k == self.k && orig.v == self.v && call_ensures(
                    f,
                    (self.v,),
                    None::<&'a U>,
                ),
            },
    {
        match f(self.v) {
            Some(u) => Ok(Ref { k: self.k, v: u }),
            None => Err(self),
        }
    }
}

/// An exclusive handle on one entry: the key and a mutable view of its
/// value, shard write-locked.
pub struct RefMut<'a, K, V> {
    /// The entry's key.
    pub k: &'a K,
    /// The entry's value; writes through it land in the map when the
    /// handle expires.
    pub v: &'a mut V,
}

impl<'a, K, V> RefMut<'a, K, V> {
    /// Wrap a pair of borrows.
    pub fn new(k: &'a K, v: &'a mut V) -> (r: Self)
        ensures
            r.k == k,
            *r.v == *old(v),
            *final(r.v) == *final(v),
    {
        RefMut { k, v }
    }

    /// The entry's key.
    pub fn key(&self) -> (r: &'a K)
        ensures
            r == self.k,
    {
        self.k
    }

    /// The entry's value.
    pub fn value(&self) -> (r: &V)
        ensures
            *r == *old(self.v),
    {
        &*self.v
    }

    /// Write access to the entry's value.
    pub fn value_mut(&mut self) -> (r: &mut V)
        ensures
            *r == *old(self.v),
            *final(self).v == *final(r),
            final(self).k == old(self).k,
    {
        self.v
    }

    /// The entry.
    pub fn pair(&self) -> (r: (&'a K, &V))
        ensures
            r.0 == self.k,
            *r.1 == *old(self.v),
    {
        (self.k, &*self.v)
    }

    /// The entry, with write access to the value.
    pub fn pair_mut(&mut self) -> (r: (&'a K, &mut V))
        ensures
            r.0 == old(self).k,
            *r.1 == *old(self.v),
            *final(self).v == *final(r.1),
            final(self).k == old(self).k,
    {
        (self.k, self.v)
    }

    /// Demote the handle to a shared one. In the concurrent lock this is
    /// the atomic writer-to-reader transition: the value the writer last
    /// wrote is what every subsequent read sees, with no writer in between.
    pub fn downgrade(self) -> (r: Ref<'a, K, V>)
        ensures
            r.k == self.k,
            *r.v == *final(self.v),
            *old(self.v) == *final(self.v),
    {
        let RefMut { k, v } = self;
        Ref { k, v }
    }

    /// Project the handle through an infallible mutable view of the value:
    /// the result is what one call of `f` on the entry's value produced, a
    /// reborrow into the entry, with the key kept and the shard still
    /// write-locked. The entry's final value is whatever the projection
    /// leaves behind, as `f`'s own contract relates it to the view.
    pub fn map<U, F: FnOnce(&'a mut V) -> &'a mut U>(self, f: F) -> (r: RefMut<'a, K, U>)
        requires
            forall|x: &mut V| #[trigger] call_requires(f, (x,)),
        ensures
            r.k == self.k,
            exists|x: &mut V, y: &mut U|
                {
                    &&& #[trigger] call_ensures(f, (x,), y)
                    &&& mut_ref_current(x) == *old(self.v)
                    &&& mut_ref_future(x) == *final(self.v)
                    &&& mut_ref_current(y) == *r.v
                    &&& mut_ref_future(y) == *final(r.v)
                },
    {
        let RefMut { k, v } = self;
        RefMut { k, v: f(v) }
    }

    /// Project the handle through a partial mutable view: `check` decides
    /// whether the projection applies, and `f` performs it. On success the
    /// result views the entry through `f`'s reborrow, key kept and shard
    /// still write-locked. On failure the original handle comes back with
    /// the shard still held and the entry untouched, so the projection can
    /// be retried or the handle reused.
    ///
    /// (A single closure returning `Option<&mut U>` cannot hand the borrow
    /// back on failure under the borrow rules this crate is checked by,
    /// which is why the test and the projection are two closures.)
    pub fn try_map<U, C: FnOnce(&V) -> bool, F: FnOnce(&'a mut V) -> &'a mut U>(
        self,
        check: C,
        f: F,
    ) -> (r: Result<RefMut<'a, K, U>, Self>)
        requires
            forall|x: &V| #[trigger] call_requires(check, (x,)),
            forall|x: &mut V| #[trigger] call_requires(f, (x,)),
        ensures
            match r {
                Ok(m) => {
                    &&& m.k == self.k
                    &&& call_ensures(check, (&*old(self.v),), true)
                    &&& exists|x: &mut V, y: &mut U|
                        {
                            &&& #[trigger] call_ensures(f, (x,), y)
                            &&& mut_ref_current(x) == *old(self.v)
                            &&& mut_ref_future(x) == *final(self.v)
                            &&& mut_ref_current(y) == *m.v
                            &&& mut_ref_future(y) == *final(m.v)
                        }
                },
                Err(orig) => {
                    &&& orig.k == self.k
                    &&& *orig.v == *old(self.v)
                    &&& *final(orig.v) == *final(self.v)
                    &&& call_ensures(check, (&*old(self.v),), false)
                },
            },
    {
        if check(&*self.v) {
            let RefMut { k, v } = self;
            Ok(RefMut { k, v: f(v) })
        } else {
            Err(self)
        }
    }
}

} // verus!
