use termpipe::fence::{Fence, FenceRC};

#[test]
fn gate_round_trip() {
    // A fresh fence is open: passing does not block.
    let fence = Fence::new();
    fence.pass();

    // A closed fence blocks until opened; the closure a waiter supplies on
    // finding the fence closed runs before the wait, so opening there lets
    // the waiter through.
    let fence = FenceRC::new();
    fence.0.close();
    let handle = fence.0.clone();
    fence.0.pass_or_execute(move || {
        handle.open();
    });

    // Re-closing and re-opening works across many cycles.
    for _ in 0..3 {
        fence.0.close();
        fence.0.open();
        fence.0.pass();
    }
}

#[test]
fn pass_or_execute_skips_the_closure_when_open() {
    let fence = FenceRC::new();
    fence.0.open();
    let mut ran = false;
    fence.0.pass_or_execute(|| {
        ran = true;
    });
    assert!(!ran);
}

#[test]
fn clones_share_one_fence() {
    let fence = FenceRC::new();
    let other = fence.clone();
    fence.0.close();
    other.0.open();
    fence.0.pass();
}

#[test]
fn close_hands_the_fence_back() {
    // `close` hands the fence back so a closing thread can chain into a
    // wait; here the fence is reopened before the chained pass.
    let fence = FenceRC::new();
    let same = fence.0.close();
    same.open();
    same.pass();
}
