//! Cells tied to a single core, and single-core locks.
//!
//! The kernel is non-preemptive, so a value bound to one core is only ever
//! touched by that core. The id of the running core is passed in explicitly.

use vstd::prelude::*;

verus! {

/// The affinity word of a cell bound to no core.
pub const NO_AFFINITY: u16 = 0xFFFF;

/// The core a cell is bound to, if any.
#[derive(Debug, Copy, Clone, Eq, PartialEq, Structural)]
pub enum Affinity {
    Bound(u16),
    Unset,
}

/// The affinity an affinity word describes.
pub open spec fn affinity_of(word: u16) -> Affinity {
    if word == NO_AFFINITY {
        Affinity::Unset
    } else {
        Affinity::Bound(word)
    }
}

/// Errors of binding a cell to the running core.
#[derive(Debug, Clone)]
pub enum BindError {
    /// The cell is tied to another core.
    Bound { affinity: u16 },
}

/// Errors of getting at the payload of a cell.
#[derive(Debug, Clone)]
pub enum GetError {
    /// The cell is not bound to the running core.
    Unbound,
}

/// Errors of unbinding a cell.
#[derive(Debug, Clone)]
pub enum UnbindError {
    /// The cell is tied to another core.
    Bound { affinity: u16 },
    /// References to the payload are still alive.
    RefsAlive { refs: usize },
}

/// A value tied to one core at a time, counting the guards that reference
/// it. Each guard carries a ticket, and the cell keeps the tickets of its
/// guards not given back.
pub struct CoreCell<T> {
    payload: T,
    refs: usize,
    affinity: u16,
    live: Ghost<Set<nat>>,
    next: Ghost<nat>,
}

/// Proof that the payload of a cell is referenced from its core; give it
/// back with `CoreCell::release`.
#[must_use]
pub struct CoreGuard {
    ticket: Ghost<nat>,
}

impl CoreGuard {
    /// The ticket the cell handed out with this guard.
    pub closed spec fn ticket(&self) -> nat {
        self.ticket@
    }
}

impl<T> CoreCell<T> {
    /// The value held.
    pub closed spec fn payload_view(&self) -> T {
        self.payload
    }

    /// The number of live guards.
    pub closed spec fn refs_view(&self) -> usize {
        self.refs
    }

    /// The raw affinity word (`NO_AFFINITY` when unbound).
    pub closed spec fn affinity_word(&self) -> u16 {
        self.affinity
    }

    /// The tickets of the guards taken and not given back.
    pub closed spec fn live_guards(&self) -> Set<nat> {
        self.live@
    }

    /// The count is the number of guards taken and not given back, and
    /// every ticket handed out so far is below the next one.
    pub closed spec fn wf(&self) -> bool {
        &&& self.live@.finite()
        &&& self.live@.len() == self.refs
        &&& forall|t: nat| #[trigger] self.live@.contains(t) ==> t < self.next@
    }

    /// A cell holding `payload`, bound to no core.
    pub fn new(payload: T) -> (r: Self)
        ensures
            r.wf(),
            r.payload_view() == payload,
            r.refs_view() == 0,
            r.live_guards() == Set::<nat>::empty(),
            r.affinity_word() == NO_AFFINITY,
    {
        Self { payload, refs: 0, affinity: NO_AFFINITY, live: Ghost(Set::empty()), next: Ghost(0) }
    }

    /// Binds the cell to core `core` (if it isn't bound elsewhere) and takes
    /// a guard on it.
    pub fn bind(&mut self, core: u16) -> (r: Result<CoreGuard, BindError>)
        requires
            old(self).wf(),
            core != NO_AFFINITY,
            (old(self).affinity_word() == NO_AFFINITY || old(self).affinity_word() == core) ==> old(self).refs_view() == 0,
        ensures
            final(self).wf(),
            r matches Ok(g) ==> !old(self).live_guards().contains(g.ticket()) && final(self).live_guards()
                == old(self).live_guards().insert(g.ticket()),
            final(self).payload_view() == old(self).payload_view(),
            (old(self).affinity_word() == NO_AFFINITY || old(self).affinity_word() == core) ==> (r is Ok
                && final(self).affinity_word() == core && final(self).refs_view() == 1),
            (old(self).affinity_word() != NO_AFFINITY && old(self).affinity_word() != core) ==> (r
                matches Err(BindError::Bound { affinity }) && affinity == old(self).affinity_word()
                && *final(self) == *old(self)),
        no_unwind
    {
        if self.affinity == NO_AFFINITY {
            self.affinity = core;
        } else if self.affinity != core {
            return Err(BindError::Bound { affinity: self.affinity });
        }
        match CoreGuard::new(self, core) {
            Ok(g) => Ok(g),
            Err(_) => {
                proof {
                    assert(false);
                }
                Err(BindError::Bound { affinity: self.affinity })
            },
        }
    }

    /// Unbinds the cell from core `core`: nothing to do when unbound, an
    /// error when bound to another core or while guards are alive.
    pub fn unbind(&mut self, core: u16) -> (r: Result<(), UnbindError>)
        requires
            old(self).wf(),
        ensures
            final(self).wf(),
            final(self).live_guards() == old(self).live_guards(),
            (r is Ok && old(self).affinity_word() != NO_AFFINITY) ==> old(self).live_guards().is_empty(),
            final(self).payload_view() == old(self).payload_view(),
            final(self).refs_view() == old(self).refs_view(),
            ({
                let a = old(self).affinity_word();
                if a == NO_AFFINITY {
                    r is Ok && final(self).affinity_word() == a
                } else if a != core {
                    r matches Err(UnbindError::Bound { affinity }) && affinity == a
                        && final(self).affinity_word() == a
                } else if old(self).refs_view() == 0 {
                    r is Ok && final(self).affinity_word() == NO_AFFINITY
                } else {
                    r matches Err(UnbindError::RefsAlive { refs }) && refs == old(self).refs_view()
                        && final(self).affinity_word() == a
                }
            }),
        no_unwind
    {
        match self.current_bind() {
            Affinity::Unset => Ok(()),
            Affinity::Bound(bounded) => {
                if bounded != core {
                    Err(UnbindError::Bound { affinity: bounded })
                } else {
                    let refs: usize = self.refs;
                    if refs == 0 {
                        self.affinity = NO_AFFINITY;
                        Ok(())
                    } else {
                        Err(UnbindError::RefsAlive { refs })
                    }
                }
            },
        }
    }

    /// A guard on the payload, if the cell is bound to core `core`.
    pub fn try_get(&mut self, core: u16) -> (r: Result<CoreGuard, GetError>)
        requires
            old(self).wf(),
            (old(self).affinity_word() == core && core != NO_AFFINITY) ==> old(self).refs_view() < usize::MAX,
        ensures
            final(self).wf(),
            r matches Ok(g) ==> !old(self).live_guards().contains(g.ticket()) && final(self).live_guards()
                == old(self).live_guards().insert(g.ticket()),
            r is Err ==> final(self).live_guards() == old(self).live_guards(),
            final(self).payload_view() == old(self).payload_view(),
            final(self).affinity_word() == old(self).affinity_word(),
            (old(self).affinity_word() == core && core != NO_AFFINITY) ==> r is Ok && final(self).refs_view() == old(self).refs_view() + 1,
            !(old(self).affinity_word() == core && core != NO_AFFINITY) ==> r is Err && final(self).refs_view() == old(self).refs_view(),
    {
        CoreGuard::new(self, core)
    }

    /// Gives back a guard taken from this cell and not given back yet.
    pub fn release(&mut self, guard: CoreGuard)
        requires
            old(self).wf(),
            old(self).live_guards().contains(guard.ticket()),
        ensures
            final(self).wf(),
            final(self).live_guards() == old(self).live_guards().remove(guard.ticket()),
            final(self).payload_view() == old(self).payload_view(),
            final(self).affinity_word() == old(self).affinity_word(),
            final(self).refs_view() == old(self).refs_view() - 1,
        no_unwind
    {
        let count: usize = self.refs;
        proof {
            assert(self.live@.len() >= 1) by {
                vstd::set_lib::lemma_set_empty_equivalency_len(self.live@);
            }
        }
        self.refs = count - 1;
        let ghost t = guard.ticket();
        proof {
            self.live@ = self.live@.remove(t);
        }
    }

    /// The payload, read through a guard of this cell not given back.
    pub fn get(&self, guard: &CoreGuard) -> (r: &T)
        requires
            self.live_guards().contains(guard.ticket()),
        ensures
            *r == self.payload_view(),
    {
        &self.payload
    }

    /// Binds the cell to core `core`, applies `fun` to the payload, and
    /// unbinds it again.
    pub fn do_bound<F, U>(&mut self, core: u16, fun: F) -> (r: Result<U, BindError>)
        where
            F: FnOnce(&T) -> U,
        requires
            old(self).wf(),
            core != NO_AFFINITY,
            (old(self).affinity_word() == NO_AFFINITY || old(self).affinity_word() == core) ==> old(self).refs_view() == 0,
            fun.requires((&old(self).payload_view(),)),
        ensures
            final(self).wf(),
            final(self).live_guards() == old(self).live_guards(),
            final(self).payload_view() == old(self).payload_view(),
            final(self).refs_view() == old(self).refs_view(),
            (old(self).affinity_word() == NO_AFFINITY || old(self).affinity_word() == core) ==> (r
                matches Ok(u) && fun.ensures((&old(self).payload_view(),), u)
                && final(self).affinity_word() == NO_AFFINITY),
            (old(self).affinity_word() != NO_AFFINITY && old(self).affinity_word() != core) ==> (r
                matches Err(BindError::Bound { affinity }) && affinity == old(self).affinity_word()
                && final(self).affinity_word() == old(self).affinity_word()),
    {
        let guard = self.bind(core)?;
        let out = fun(self.get(&guard));
        self.release(guard);
        match self.unbind(core) {
            Ok(()) => {},
            Err(_) => {
                proof {
                    assert(false);
                }
            },
        }
        Ok(out)
    }

    /// Applies `fun` to the payload if the cell is bound to core `core`.
    pub fn with<F, U>(&mut self, core: u16, fun: F) -> (r: Result<U, GetError>)
        where
            F: FnOnce(&T) -> U,
        requires
            old(self).wf(),
            (old(self).affinity_word() == core && core != NO_AFFINITY) ==> old(self).refs_view() < usize::MAX,
            fun.requires((&old(self).payload_view(),)),
        ensures
            final(self).wf(),
            final(self).live_guards() == old(self).live_guards(),
            final(self).payload_view() == old(self).payload_view(),
            final(self).refs_view() == old(self).refs_view(),
            final(self).affinity_word() == old(self).affinity_word(),
            (old(self).affinity_word() == core && core != NO_AFFINITY) ==> (r matches Ok(u) && fun.ensures(
                (&old(self).payload_view(),),
                u,
            )),
            !(old(self).affinity_word() == core && core != NO_AFFINITY) ==> (r matches Err(GetError::Unbound)),
    {
        let guard = CoreGuard::new(self, core)?;
        let out = fun(self.get(&guard));
        self.release(guard);
        Ok(out)
    }

    /// The core the cell is bound to, if any.
    pub fn current_bind(&self) -> (r: Affinity)
        ensures
            r == affinity_of(self.affinity_word()),
        no_unwind
    {
        let affinity: u16 = self.affinity;
        if affinity == NO_AFFINITY {
            Affinity::Unset
        } else {
            Affinity::Bound(affinity)
        }
    }

    /// Whether the cell is bound to core `core`.
    pub fn is_locally_bound(&self, core: u16) -> (r: bool)
        ensures
            r == (affinity_of(self.affinity_word()) == Affinity::Bound(core)),
        no_unwind
    {
        self.current_bind() == Affinity::Bound(core)
    }
}

impl CoreGuard {
    /// Takes a guard on `cell` if it is bound to core `core`.
    pub fn new<T>(cell: &mut CoreCell<T>, core: u16) -> (r: Result<Self, GetError>)
        requires
            old(cell).wf(),
            (old(cell).affinity_word() == core && core != NO_AFFINITY) ==> old(cell).refs_view() < usize::MAX,
        ensures
            final(cell).wf(),
            r matches Ok(g) ==> !old(cell).live_guards().contains(g.ticket()) && final(cell).live_guards()
                == old(cell).live_guards().insert(g.ticket()),
            r is Err ==> final(cell).live_guards() == old(cell).live_guards(),
            final(cell).payload_view() == old(cell).payload_view(),
            final(cell).affinity_word() == old(cell).affinity_word(),
            (old(cell).affinity_word() == core && core != NO_AFFINITY) ==> r is Ok && final(cell).refs_view() == old(cell).refs_view() + 1,
            !(old(cell).affinity_word() == core && core != NO_AFFINITY) ==> (r matches Err(GetError::Unbound)
                && final(cell).refs_view() == old(cell).refs_view()),
        no_unwind
    {
        if cell.is_locally_bound(core) {
            let c: usize = cell.refs;
            let ghost t = cell.next@;
            cell.refs = c + 1;
            proof {
                assert(!cell.live@.contains(t));
                cell.live@ = cell.live@.insert(t);
                cell.next@ = t + 1;
            }
            Ok(Self { ticket: Ghost(t) })
        } else {
            Err(GetError::Unbound)
        }
    }
}

/// Errors of locking.
#[derive(Debug)]
pub enum LockError {
    /// The payload is currently locked.
    AlreadyLocked,
}

/// `out` is a result `fun` may give for a reference to `before`.
pub open spec fn applied_to<T, U, F: FnOnce(&mut T) -> U>(fun: F, before: T, out: U) -> bool {
    exists|x: &mut T| *x == before && #[trigger] fun.ensures((x,), out)
}

/// A lock for a single core: no waiting, locking twice is an error. Each
/// guard carries a ticket, numbered in the order the lock was taken; only
/// the guard holding the current ticket reaches the value or unlocks.
pub struct Lock<T> {
    inner: T,
    locked: bool,
    holder: Ghost<nat>,
    next: Ghost<nat>,
}

/// Proof that a lock is held; give it back with `Lock::unlock`.
#[must_use]
pub struct LockGuard {
    ticket: Ghost<nat>,
}

impl LockGuard {
    /// The ticket the lock handed out with this guard.
    pub closed spec fn ticket(&self) -> nat {
        self.ticket@
    }
}

impl<T> Lock<T> {
    /// The value held.
    pub closed spec fn value(&self) -> T {
        self.inner
    }

    /// Whether the lock is held.
    pub closed spec fn is_locked(&self) -> bool {
        self.locked
    }

    /// The ticket of the guard that holds the lock, while it is held.
    pub closed spec fn holder(&self) -> nat {
        self.holder@
    }

    /// The ticket the next guard gets; every ticket handed out is below it.
    pub closed spec fn next_ticket(&self) -> nat {
        self.next@
    }

    /// Whether `guard` is the one holding the lock.
    pub open spec fn held_by(&self, guard: &LockGuard) -> bool {
        self.is_locked() && guard.ticket() == self.holder()
    }

    /// An unlocked lock holding `inner`.
    pub fn new(inner: T) -> (r: Self)
        ensures
            r.value() == inner,
            !r.is_locked(),
            r.next_ticket() == 0,
    {
        Self { inner, locked: false, holder: Ghost(0), next: Ghost(0) }
    }

    /// Takes the lock, which must not be held.
    pub fn lock(&mut self) -> (r: LockGuard)
        requires
            !old(self).is_locked(),
        ensures
            final(self).held_by(&r),
            r.ticket() == old(self).next_ticket(),
            final(self).next_ticket() == old(self).next_ticket() + 1,
            final(self).value() == old(self).value(),
    {
        match LockGuard::new(self) {
            Ok(g) => g,
            Err(_) => {
                proof {
                    assert(false);
                }
                LockGuard { ticket: Ghost(0) }
            },
        }
    }

    /// Takes the lock, or fails with `AlreadyLocked`, changing nothing, when
    /// it is held.
    pub fn try_lock(&mut self) -> (r: Result<LockGuard, LockError>)
        ensures
            old(self).is_locked() <==> r is Err,
            r is Err ==> *final(self) == *old(self),
            r matches Ok(g) ==> final(self).held_by(&g) && g.ticket() == old(self).next_ticket()
                && final(self).next_ticket() == old(self).next_ticket() + 1,
            final(self).is_locked(),
            final(self).value() == old(self).value(),
    {
        LockGuard::new(self)
    }

    /// Releases the lock, given back by the guard that holds it.
    pub fn unlock(&mut self, guard: LockGuard)
        requires
            old(self).held_by(&guard),
        ensures
            !final(self).is_locked(),
            final(self).value() == old(self).value(),
            final(self).next_ticket() == old(self).next_ticket(),
    {
        self.locked = false;
    }

    /// The value, read through the guard that holds the lock.
    pub fn get(&self, guard: &LockGuard) -> (r: &T)
        requires
            self.held_by(guard),
        ensures
            *r == self.value(),
    {
        &self.inner
    }

    /// Overwrites the value through the guard that holds the lock,
    /// returning the previous one.
    pub fn set(&mut self, guard: &LockGuard, new: T) -> (r: T)
        requires
            old(self).held_by(guard),
        ensures
            r == old(self).value(),
            final(self).value() == new,
            final(self).is_locked() == old(self).is_locked(),
            final(self).holder() == old(self).holder(),
            final(self).next_ticket() == old(self).next_ticket(),
    {
        let mut v = new;
        core::mem::swap(&mut self.inner, &mut v);
        v
    }

    /// Takes the lock, applies `fun` to the value and releases the lock;
    /// fails with `AlreadyLocked`, leaving everything unchanged, when the
    /// lock is held. What `fun` leaves behind the reference is not stated
    /// here.
    pub fn try_locked<F, U>(&mut self, fun: F) -> (r: Result<U, LockError>)
        where
            F: FnOnce(&mut T) -> U,
        requires
            forall|x: &mut T| *x == old(self).value() ==> #[trigger] fun.requires((x,)),
        ensures
            final(self).is_locked() == old(self).is_locked(),
            final(self).next_ticket() == old(self).next_ticket(),
            old(self).is_locked() <==> r is Err,
            old(self).is_locked() ==> final(self).value() == old(self).value(),
            r matches Ok(u) ==> applied_to(fun, old(self).value(), u),
    {
        if self.locked {
            return Err(LockError::AlreadyLocked);
        }
        let out = self.locked(fun);
        Ok(out)
    }

    /// Takes the lock, which must not be held, applies `fun` to the value
    /// and releases the lock; the value is then what `fun` left behind the
    /// reference it was given.
    pub fn locked<F, U>(&mut self, fun: F) -> (r: U)
        where
            F: FnOnce(&mut T) -> U,
        requires
            !old(self).is_locked(),
            forall|x: &mut T| *x == old(self).value() ==> #[trigger] fun.requires((x,)),
        ensures
            !final(self).is_locked(),
            final(self).next_ticket() == old(self).next_ticket(),
            exists|x: &mut T| *x == old(self).value() && *final(x) == final(self).value() && #[trigger] fun.ensures((x,), r),
    {
        fun(&mut self.inner)
    }

    /// Replaces the value unless the lock is held: returns the previous
    /// value, or `AlreadyLocked` leaving everything unchanged.
    pub fn replace(&mut self, new: T) -> (r: Result<T, LockError>)
        ensures
            final(self).is_locked() == old(self).is_locked(),
            old(self).is_locked() ==> r is Err && *final(self) == *old(self),
            !old(self).is_locked() ==> final(self).next_ticket() == old(self).next_ticket() + 1,
            !old(self).is_locked() ==> r == Ok::<T, LockError>(old(self).value()) && final(self).value() == new,
    {
        let guard = LockGuard::new(self);
        match guard {
            Ok(g) => {
                let prev = self.set(&g, new);
                self.unlock(g);
                Ok(prev)
            },
            Err(e) => Err(e),
        }
    }
}

impl LockGuard {
    /// Takes `cell`'s lock, or fails with `AlreadyLocked` when it is held.
    pub fn new<T>(cell: &mut Lock<T>) -> (r: Result<Self, LockError>)
        ensures
            final(cell).is_locked(),
            final(cell).value() == old(cell).value(),
            old(cell).is_locked() <==> r is Err,
            r is Err ==> *final(cell) == *old(cell),
            r matches Ok(g) ==> final(cell).held_by(&g) && g.ticket() == old(cell).next_ticket()
                && final(cell).next_ticket() == old(cell).next_ticket() + 1,
    {
        if cell.locked {
            return Err(LockError::AlreadyLocked);
        }
        let ghost t = cell.next@;
        cell.locked = true;
        proof {
            cell.holder@ = t;
            cell.next@ = t + 1;
        }
        Ok(Self { ticket: Ghost(t) })
    }
}

} // verus!
