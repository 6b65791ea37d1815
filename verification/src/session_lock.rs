//! Taking the session lock (`ext-session-lock-v1`).
//!
//! A new lock is refused while a lock whose client is still connected exists.
//! Otherwise every output has to show a locked frame before the client is
//! told the session is locked; a mirrored output is left out, because it never
//! gets frame callbacks of its own and shows whatever its source output shows.
//! With no output to wait for, nothing could still be showing unlocked content,
//! so the `locked` event is due at once.

use vstd::prelude::*;

verus! {

/// What the compositor does with a lock request.
#[derive(Debug, PartialEq, Eq)]
pub enum LockDecision {
    /// A lock exists and its client is still connected: the request is
    /// ignored.
    Refuse,
    /// The session is locked. `unpresented` lists the outputs (by position)
    /// that must present a locked frame before `locked` is sent; `locked_now`
    /// says that `locked` is due immediately.
    Lock { unpresented: Vec<usize>, locked_now: bool },
}

/// The positions of the outputs that are not mirrors, in order.
pub open spec fn awaited_outputs(mirrored: Seq<bool>) -> Seq<usize>
    decreases mirrored.len(),
{
    if mirrored.len() == 0 {
        Seq::empty()
    } else {
        let before = awaited_outputs(mirrored.drop_last());
        if mirrored.last() {
            before
        } else {
            before.push((mirrored.len() - 1) as usize)
        }
    }
}

/// Decide a lock request. `existing_lock_alive` says whether a lock exists
/// whose client is still connected; `output_mirrored[i]` says whether output
/// `i` mirrors another.
pub fn decide_lock(existing_lock_alive: bool, output_mirrored: &[bool]) -> (d: LockDecision)
    ensures
        existing_lock_alive ==> d == LockDecision::Refuse,
        !existing_lock_alive ==> match d {
            LockDecision::Lock { unpresented, locked_now } => {
                &&& unpresented@ == awaited_outputs(output_mirrored@)
                &&& locked_now == (awaited_outputs(output_mirrored@).len() == 0)
            },
            LockDecision::Refuse => false,
        },
{
    if existing_lock_alive {
        return LockDecision::Refuse;
    }
    let mut unpresented: Vec<usize> = Vec::new();
    let mut i: usize = 0;
    while i < output_mirrored.len()
        invariant
            0 <= i <= output_mirrored.len(),
            unpresented@ == awaited_outputs(output_mirrored@.take(i as int)),
        decreases output_mirrored.len() - i,
    {
        assert(output_mirrored@.take(i as int + 1).drop_last() =~= output_mirrored@.take(i as int));
        if !output_mirrored[i] {
            unpresented.push(i);
        }
        i = i + 1;
    }
    assert(output_mirrored@.take(i as int) =~= output_mirrored@);
    let locked_now = unpresented.len() == 0;
    LockDecision::Lock { unpresented, locked_now }
}

/// A new lock surface for an output: while a lock is held and the surface's
/// output still exists (its logical size given), the surface is configured to
/// the output's size, each dimension converted to `u32` as Rust's `as` does,
/// and recorded for that output; otherwise it is ignored (`None`).
pub fn new_lock_surface(lock_held: bool, output_size: Option<(i32, i32)>) -> (configure: Option<(u32, u32)>)
    ensures
        configure == (if lock_held && output_size is Some {
            Some((output_size->Some_0.0 as u32, output_size->Some_0.1 as u32))
        } else {
            None
        }),
{
    if !lock_held {
        return None;
    }
    match output_size {
        Some((width, height)) => Some((width as u32, height as u32)),
        None => None,
    }
}

/// Law: the outputs a lock waits for are exactly the outputs that are not
/// mirrors, each listed once by its position, in order; so `locked` is due
/// at once exactly when every output is a mirror (or there is none).
pub proof fn law_lock_waits_for_every_unmirrored_output(mirrored: Seq<bool>)
    requires
        mirrored.len() <= usize::MAX,
    ensures
        forall|i: int|
            0 <= i < mirrored.len() ==> (awaited_outputs(mirrored).contains(i as usize)
                <==> !mirrored[i]),
        forall|j: int|
            0 <= j < awaited_outputs(mirrored).len() ==> #[trigger] awaited_outputs(mirrored)[j]
                < mirrored.len(),
        forall|j: int, k: int|
            0 <= j < k < awaited_outputs(mirrored).len() ==> awaited_outputs(mirrored)[j]
                < awaited_outputs(mirrored)[k],
        (awaited_outputs(mirrored).len() == 0) <==> (forall|i: int|
            0 <= i < mirrored.len() ==> #[trigger] mirrored[i]),
    decreases mirrored.len(),
{
    if mirrored.len() > 0 {
        let before = mirrored.drop_last();
        law_lock_waits_for_every_unmirrored_output(before);
        let a = awaited_outputs(mirrored);
        let b = awaited_outputs(before);
        let n = mirrored.len() - 1;
        assert(forall|i: int| 0 <= i < n ==> before[i] == mirrored[i]);
        if mirrored.last() {
            assert(a == b);
            assert forall|i: int| 0 <= i < mirrored.len() implies (a.contains(i as usize)
                <==> !mirrored[i]) by {
                if i == n {
                    if a.contains(i as usize) {
                        let j = choose|j: int| 0 <= j < a.len() && a[j] == i as usize;
                        assert(b[j] < before.len());
                    }
                } else {
                    assert(before[i] == mirrored[i]);
                }
            }
            if a.len() == 0 {
                assert forall|i: int| 0 <= i < mirrored.len() implies #[trigger] mirrored[i] by {
                    if i < n {
                        assert(before[i] == mirrored[i]);
                    }
                }
            }
        } else {
            assert(a == b.push(n as usize));
            assert forall|i: int| 0 <= i < mirrored.len() implies (a.contains(i as usize)
                <==> !mirrored[i]) by {
                if i == n {
                    assert(a[a.len() - 1] == n as usize);
                } else {
                    assert(before[i] == mirrored[i]);
                    if a.contains(i as usize) {
                        let j = choose|j: int| 0 <= j < a.len() && a[j] == i as usize;
                        if j < b.len() {
                            assert(b[j] == a[j]);
                            assert(b.contains(i as usize));
                        }
                    }
                    if b.contains(i as usize) {
                        let j = choose|j: int| 0 <= j < b.len() && b[j] == i as usize;
                        assert(a[j] == b[j]);
                    }
                }
            }
            assert forall|j: int, k: int| 0 <= j < k < a.len() implies a[j] < a[k] by {
                if k < b.len() {
                    assert(a[j] == b[j] && a[k] == b[k]);
                } else {
                    assert(a[j] == b[j]);
                    assert(b[j] < before.len());
                }
            }
            assert(!(forall|i: int| 0 <= i < mirrored.len() ==> #[trigger] mirrored[i])) by {
                assert(!mirrored[n]);
            }
        }
    }
}

} // verus!
