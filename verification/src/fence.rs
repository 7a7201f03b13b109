//! A spin-wait rendezvous gate between threads.

use vstd::prelude::*;
use core::sync::atomic::{AtomicBool, Ordering};
use std::sync::Arc;

verus! {

/// A way to synchronise between multiple threads.
///
/// A fence has two states, open and closed. Passing an open fence does not
/// block; passing a closed fence spins until another thread opens it again.
///
/// If every holder of a fence waits while it is closed, no thread is left to
/// open it and the waiters spin forever.
pub struct Fence {
    is_open: AtomicBool,
}

/// A shared, reference-counted handle to a [`Fence`]: clones share the one
/// fence.
#[derive(Clone)]
pub struct FenceRC(pub Arc<Fence>);

impl FenceRC {
    pub fn new() -> FenceRC {
        FenceRC(Arc::new(Fence::new()))
    }
}

impl Fence {
    /// A fence starts open: the first pass goes straight through.
    pub fn new() -> Fence {
        Fence { is_open: AtomicBool::new(true) }
    }

    /// Open the fence and let any blocked thread through.
    pub fn open(&self) {
        self.is_open.store(true, Ordering::Relaxed)
    }

    /// Close the fence and block any thread that attempts to pass.
    pub fn close(&self) -> &Self {
        self.is_open.store(false, Ordering::Relaxed);
        self
    }

    /// Pass through the fence. While the fence is closed this spins; it
    /// returns once a load of the flag observes the fence open.
    ///
    /// Relies on `AtomicBool::load` and `core::hint::spin_loop`: the wait is
    /// an unbounded busy-poll, so it carries no termination measure and its
    /// loop stands outside the verifier.
    #[verifier::external_body]
    pub fn pass(&self) {
        while !self.is_open.load(Ordering::Relaxed) {
            core::hint::spin_loop();
        }
    }

    /// If the fence is closed, run `func_on_closed`. Afterward, attempt to
    /// pass through the fence.
    pub fn pass_or_execute<F: FnOnce()>(&self, func_on_closed: F)
        requires
            func_on_closed.requires(()),
    {
        if !self.is_open.load(Ordering::Relaxed) {
            func_on_closed();
        }
        self.pass();
    }
}

} // verus!
