use arlen_comp::session_lock::{decide_lock, new_lock_surface, LockDecision};

#[test]
fn a_live_lock_refuses_another() {
    assert_eq!(decide_lock(true, &[false, false]), LockDecision::Refuse);
}

#[test]
fn every_unmirrored_output_must_present() {
    assert_eq!(
        decide_lock(false, &[false, true, false]),
        LockDecision::Lock { unpresented: vec![0, 2], locked_now: false }
    );
}

#[test]
fn with_nothing_to_wait_for_locked_is_due_at_once() {
    assert_eq!(
        decide_lock(false, &[]),
        LockDecision::Lock { unpresented: vec![], locked_now: true }
    );
    assert_eq!(
        decide_lock(false, &[true, true]),
        LockDecision::Lock { unpresented: vec![], locked_now: true }
    );
}

#[test]
fn lock_surfaces_take_the_output_size() {
    assert_eq!(new_lock_surface(true, Some((1920, 1080))), Some((1920, 1080)));
    assert_eq!(new_lock_surface(true, Some((-1, 0))), Some((u32::MAX, 0)));
}

#[test]
fn lock_surfaces_without_a_lock_or_output_are_ignored() {
    assert_eq!(new_lock_surface(false, Some((1920, 1080))), None);
    assert_eq!(new_lock_surface(true, None), None);
}
