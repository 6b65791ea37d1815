use arlen_comp::presented::{has_been_presented, EverPresented};

#[test]
fn a_surface_never_drawn_is_not_presented() {
    assert!(!has_been_presented(true, None));
    assert!(!has_been_presented(true, Some(EverPresented::new())));
}

#[test]
fn a_presented_surface_stays_presented() {
    let mut p = EverPresented::new();
    p.mark_presented();
    assert!(has_been_presented(true, Some(p)));
    p.mark_presented();
    assert!(p.is_presented());
}

#[test]
fn a_destroyed_surface_is_never_presented() {
    let mut p = EverPresented::new();
    p.mark_presented();
    assert!(!has_been_presented(false, Some(p)));
    assert!(!has_been_presented(false, None));
}
