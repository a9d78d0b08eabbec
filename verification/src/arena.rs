//! The arena facade and its reference-counted handles.
//!
//! An [`Arena`] owns one shared reference to a [`ChunkStore`] guarded by a
//! reader-writer lock; every handle it mints owns another. The store — and
//! with it every stored value — is torn down exactly once, when the last such
//! reference (arena or handle) is dropped, in whatever order that happens.
//!
//! The lock is held only inside the arena's own methods, never while caller
//! code runs, so no operation of this module can be re-entered while a guard
//! is held.

use vstd::prelude::*;
use vstd::std_specs::cmp::PartialEqSpec;
use vstd::rwlock::RwLock;
use vstd::rwlock::RwLockPredicate;

use std::sync::Arc;

use crate::store::ChunkStore;

verus! {

/// Why an allocation was refused.
#[derive(Clone, Copy, PartialEq, Eq, Debug)]
pub enum ArenaError {
    /// Growing would double the chunk capacity past the machine's size range,
    /// or the element count would no longer fit in a machine word.
    CapacityOverflow,
}

/// What every chunk store placed behind an arena's lock satisfies: it is
/// well-formed, and its first chunk keeps the capacity the arena was created
/// with.
pub(crate) struct StoreInv {
    pub init_cap: int,
}

impl<E> RwLockPredicate<ChunkStore<E>> for StoreInv {
    closed spec fn inv(self, s: ChunkStore<E>) -> bool {
        &&& s.wf()
        &&& s.first_cap() == self.init_cap
    }
}

/// The lock around one shared chunk store, together with the duty to tear the
/// store — and every value inside it — down when the last owner lets go. The
/// lock itself would leak its contents when dropped; this wrapper takes them
/// back out.
pub(crate) struct LockedStore<T> {
    lock: Option<RwLock<ChunkStore<Arc<T>>, StoreInv>>,
}

impl<T> LockedStore<T> {
    /// The lock is present for the whole life of the wrapper; only teardown
    /// takes it out.
    #[verifier::type_invariant]
    closed spec fn lock_present(self) -> bool {
        self.lock is Some
    }

    /// The capacity of the store's first chunk, fixed at construction.
    pub(crate) closed spec fn init_cap(self) -> int {
        match self.lock {
            Some(l) => l.pred().init_cap,
            None => 0,
        }
    }

    /// A fresh store with one empty chunk of capacity `n`, behind its lock.
    fn new(n: usize) -> (s: Self)
        requires
            1 <= n,
        ensures
            s.init_cap() == n,
    {
        let store = ChunkStore::<Arc<T>>::new(n);
        let lock = RwLock::new(store, Ghost(StoreInv { init_cap: n as int }));
        LockedStore { lock: Some(lock) }
    }

    /// The lock guarding the store.
    fn lock_ref(&self) -> (l: &RwLock<ChunkStore<Arc<T>>, StoreInv>)
        ensures
            l.pred().init_cap == self.init_cap(),
    {
        proof {
            use_type_invariant(self);
        }
        self.lock.as_ref().unwrap()
    }
}

impl<T> Drop for LockedStore<T> {
    /// Takes the chunk store back out of the lock, so that dropping the last
    /// arena or handle over it drops the store and every value inside — the
    /// lock itself would leak them. Relies on `Option::take` and on
    /// `vstd::rwlock::RwLock::into_inner`; runs only when no owner, and so no
    /// open guard, is left.
    #[verifier::external_body]
    fn drop(&mut self)
        opens_invariants none
        no_unwind
    {
        if let Some(lock) = self.lock.take() {
            let _ = lock.into_inner();
        }
    }
}

/// A typed arena that provides reference-counted pointers to its underlying
/// values. Cloning the arena duplicates the facade, not the storage.
pub struct Arena<T> {
    store: Arc<LockedStore<T>>,
}

/// A reference counted pointer to a value that lives in an arena. It keeps
/// the arena's whole chunk store alive; the value it references is dropped
/// only when the arena and every handle into the same store are gone.
pub struct Rc<T> {
    store: Arc<LockedStore<T>>,
    elem: Arc<T>,
}

impl<T> Rc<T> {
    /// The value this handle references. It is fixed when the handle is
    /// minted and no operation of this crate ever changes it.
    pub closed spec fn value(self) -> T {
        *self.elem
    }

}

impl<T> core::ops::Deref for Rc<T> {
    type Target = T;

    /// Read-only access to the referenced value: always valid, because the
    /// handle itself keeps the backing store alive and a stored value never
    /// moves or changes.
    fn deref(&self) -> (r: &T)
        ensures
            *r == self.value(),
    {
        &*self.elem
    }
}

impl<T> Clone for Rc<T> {
    /// A duplicate handle: it references the identical value and holds one
    /// more shared reference to the same backing store.
    fn clone(&self) -> (res: Self)
        ensures
            res == *self,
            res.value() == self.value(),
    {
        Rc { store: self.store.clone(), elem: self.elem.clone() }
    }
}

impl<T: PartialEq> PartialEq for Rc<T> {
    /// Handles compare by their referenced values, not by identity: two
    /// handles are equal exactly when the values they reference are.
    fn eq(&self, other: &Rc<T>) -> (r: bool) {
        PartialEq::eq(&**self, &**other)
    }
}

impl<T: PartialEq> vstd::std_specs::cmp::PartialEqSpecImpl for Rc<T> {
    open spec fn obeys_eq_spec() -> bool {
        T::obeys_eq_spec()
    }

    open spec fn eq_spec(&self, other: &Rc<T>) -> bool {
        self.value().eq_spec(&other.value())
    }
}

impl<T> Arena<T> {
    /// The capacity of the store's first chunk, fixed at construction.
    pub closed spec fn initial_capacity(self) -> int {
        (*self.store).init_cap()
    }

    /// Create a new arena whose first chunk holds 8 values.
    pub fn new() -> (a: Arena<T>)
        ensures
            a.initial_capacity() == 8,
    {
        Arena::with_capacity(8)
    }

    /// Create a new arena whose first chunk holds `n` values.
    pub fn with_capacity(n: usize) -> (a: Arena<T>)
        requires
            1 <= n,
        ensures
            a.initial_capacity() == n,
    {
        Arena { store: Arc::new(LockedStore::new(n)) }
    }

    /// Store a value in the arena and return a reference counted pointer to
    /// it. Allocation is refused — and the store left exactly as it was —
    /// only when growing would overflow the machine's size range.
    pub fn allocate(&self, value: T) -> (r: Result<Rc<T>, ArenaError>)
        ensures
            r matches Ok(h) ==> h.value() == value,
            r matches Err(e) ==> e == ArenaError::CapacityOverflow,
    {
        let elem = Arc::new(value);
        let (mut store, handle) = self.store.lock_ref().acquire_write();
        if store.has_room() {
            let _addr = store.allocate(elem.clone());
            handle.release_write(store);
            Ok(Rc { store: self.store.clone(), elem })
        } else {
            handle.release_write(store);
            Err(ArenaError::CapacityOverflow)
        }
    }

    /// The number of values placed in the arena so far.
    pub fn len(&self) -> (n: usize) {
        let handle = self.store.lock_ref().acquire_read();
        let n = handle.borrow().count();
        handle.release_read();
        n
    }

    /// Call `f` once for every value in the arena, in allocation order, with
    /// a transient handle referencing that value. The handles keep the store
    /// alive for the whole traversal even if the arena itself is dropped by
    /// another owner meanwhile. The lock is not held while `f` runs.
    pub fn each<F: FnMut(&Rc<T>)>(&self, f: F)
        requires
            forall|h: &Rc<T>| #[trigger] call_requires(f, (h,)),
    {
        let mut g = f;
        let n = self.len();
        let mut i: usize = 0;
        while i < n
            invariant
                forall|h: &Rc<T>| #[trigger] call_requires(g, (h,)),
            decreases n - i,
        {
            let handle = self.store.lock_ref().acquire_read();
            let store_ref = handle.borrow();
            let cnt = store_ref.count();
            if i < cnt {
                let elem = store_ref.get_index(i).clone();
                handle.release_read();
                let rc = Rc { store: self.store.clone(), elem };
                g(&rc);
            } else {
                handle.release_read();
            }
            i = i + 1;
        }
    }
}

impl<T> Clone for Arena<T> {
    /// A duplicate facade over the same chunk store: values allocated through
    /// either arena are visible to both, and storage is torn down only when
    /// every arena and handle over it is gone.
    fn clone(&self) -> (res: Self)
        ensures
            res == *self,
            res.initial_capacity() == self.initial_capacity(),
    {
        Arena { store: self.store.clone() }
    }
}

} // verus!
