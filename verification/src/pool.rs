//! A pool of recognition engines. Making an engine is slow, so engines that
//! are not in use wait in a list: a caller takes one from the list, or makes
//! one itself where the list is empty, and gives it back after use. A
//! maintenance loop tops the list up to a target size.

use vstd::prelude::*;

verus! {

/// How many engines the maintenance loop keeps waiting.
pub const POOL_TARGET: usize = 9;

/// How long the maintenance loop rests between two looks at the pool, in
/// milliseconds.
pub const MAINTENANCE_PAUSE_MS: u64 = 500;

/// The engines that wait for use.
pub struct EnginePool<E> {
    idle: Vec<E>,
    target: usize,
}

impl<E> EnginePool<E> {
    /// The engines that wait, the one taken next last.
    pub closed spec fn idle(&self) -> Seq<E> {
        self.idle@
    }

    /// The size that the maintenance loop tops the list up to.
    pub closed spec fn target(&self) -> nat {
        self.target as nat
    }

    /// An empty pool with the given target size.
    pub fn new(target: usize) -> (pool: Self)
        ensures
            pool.idle() == Seq::<E>::empty(),
            pool.target() == target,
    {
        EnginePool { idle: Vec::new(), target }
    }

    /// How many engines wait.
    pub fn idle_count(&self) -> (n: usize)
        ensures
            n == self.idle().len(),
    {
        self.idle.len()
    }

    /// Whether the maintenance loop should make another engine: fewer wait
    /// than the target asks for.
    pub fn needs_refill(&self) -> (b: bool)
        ensures
            b == (self.idle().len() < self.target()),
    {
        self.idle.len() < self.target
    }

    /// Adds an engine that the maintenance loop has made, unless the list
    /// has reached its target meanwhile: then the engine is handed back and
    /// the list stays as it is.
    pub fn refill(&mut self, engine: E) -> (spare: Option<E>)
        ensures
            final(self).target() == old(self).target(),
            old(self).idle().len() < old(self).target() ==> spare is None && final(self).idle()
                == old(self).idle().push(engine),
            old(self).idle().len() >= old(self).target() ==> spare == Some(engine) && final(self).idle() == old(self).idle(),
    {
        if self.idle.len() < self.target {
            self.idle.push(engine);
            None
        } else {
            Some(engine)
        }
    }

    /// Takes the engine that was put in last. Where none waits the caller
    /// makes one itself.
    pub fn acquire(&mut self) -> (engine: Option<E>)
        ensures
            final(self).target() == old(self).target(),
            old(self).idle().len() > 0 ==> engine == Some(old(self).idle().last()) && final(self).idle() == old(self).idle().drop_last(),
            old(self).idle().len() == 0 ==> engine is None && final(self).idle() == old(self).idle(),
    {
        self.idle.pop()
    }

    /// Gives an engine back after use. It is always kept.
    pub fn release(&mut self, engine: E)
        ensures
            final(self).target() == old(self).target(),
            final(self).idle() == old(self).idle().push(engine),
    {
        self.idle.push(engine);
    }
}

} // verus!
