use arlen_comp::grid::GridRect;
use arlen_comp::grid_manager::{GridManagerState, GridRequest};

#[test]
fn a_fresh_surface_counts_as_acked() {
    let m = GridManagerState::new();
    assert!(m.is_configure_acked(7));
    assert!(m.get(7).is_none());
    assert!(!m.has_grid(7));
}

#[test]
fn configure_needs_a_grid_object() {
    let mut m = GridManagerState::new();
    assert_eq!(m.send_configure(7), None);
    assert!(m.get(7).is_none());
    m.get_grid(7);
    assert!(m.has_grid(7));
    assert_eq!(m.send_configure(7), Some(1));
    assert_eq!(m.send_configure(7), Some(2));
    assert_eq!(m.get(7).unwrap().configure_serial, 2);
}

#[test]
fn the_resize_handshake_waits_for_the_ack() {
    let mut m = GridManagerState::new();
    m.get_grid(3);
    let serial = m.send_configure(3).unwrap();
    assert!(!m.is_configure_acked(3));
    assert!(!m.request(3, GridRequest::AckConfigure { serial: serial + 1 }));
    assert!(!m.is_configure_acked(3));
    assert!(m.request(3, GridRequest::AckConfigure { serial }));
    assert!(m.is_configure_acked(3));
}

#[test]
fn only_an_ack_of_a_new_serial_reports_a_change() {
    let mut m = GridManagerState::new();
    m.get_grid(3);
    let first = m.send_configure(3).unwrap();
    let second = m.send_configure(3).unwrap();
    assert!(m.request(3, GridRequest::AckConfigure { serial: first }));
    assert!(!m.is_configure_acked(3));
    assert!(!m.request(3, GridRequest::AckConfigure { serial: first }));
    assert!(!m.request(3, GridRequest::AckConfigure { serial: second + 5 }));
    assert!(m.request(3, GridRequest::AckConfigure { serial: second }));
    assert!(m.is_configure_acked(3));
    assert!(!m.request(3, GridRequest::AckConfigure { serial: second }));
}

#[test]
fn the_handshake_survives_many_other_acks() {
    let mut m = GridManagerState::new();
    m.get_grid(8);
    m.send_configure(8);
    m.request(8, GridRequest::AckConfigure { serial: 1 });
    let sent = m.send_configure(8).unwrap();
    for other in [0u32, 1, 7, 3, 1] {
        m.request(8, GridRequest::AckConfigure { serial: other });
        assert!(!m.is_configure_acked(8));
    }
    assert_eq!(m.get(8).unwrap().configure_serial, sent);
    m.request(8, GridRequest::AckConfigure { serial: sent });
    assert!(m.is_configure_acked(8));
}

#[test]
fn has_grid_follows_the_last_binding_event() {
    let mut m = GridManagerState::new();
    m.register_resource(2);
    m.get_grid(3);
    m.unregister_resource(2);
    m.destroyed(3);
    m.get_grid(2);
    m.register_resource(5);
    m.unregister_resource(5);
    assert!(m.has_grid(2));
    assert!(!m.has_grid(3));
    assert!(!m.has_grid(5));
    assert_eq!(m.active_surface_ids(), vec![2]);
}

#[test]
fn declarations_are_recorded_and_reported_as_changes() {
    let mut m = GridManagerState::new();
    m.get_grid(1);
    assert!(m.request(1, GridRequest::SetGridSurface { surface_id: 42 }));
    assert!(m.request(1, GridRequest::SetRegion { x: 0, y: 36, width: 805, height: -1 }));
    assert!(m.request(1, GridRequest::SetCellSize { width: 8, height: -18 }));
    assert!(m.request(
        1,
        GridRequest::SetDomHoles {
            holes: Some(vec![GridRect { x: 1, y: 2, width: -3, height: 4 }])
        }
    ));
    let st = m.get(1).unwrap();
    assert_eq!(st.grid_surface_id, Some(42));
    assert_eq!(st.region, Some(GridRect { x: 0, y: 36, width: 805, height: 0 }));
    assert_eq!(st.cell.map(|c| (c.width, c.height)), Some((8, 0)));
    assert_eq!(st.dom_holes, vec![GridRect { x: 1, y: 2, width: 0, height: 4 }]);
    assert!(m.request(1, GridRequest::SetDomHoles { holes: None }));
    assert!(m.get(1).unwrap().dom_holes.is_empty());
    assert!(!m.request(1, GridRequest::Destroy));
    assert!(!m.request(1, GridRequest::Other));
}

#[test]
fn a_request_creates_state_for_an_unknown_surface() {
    let mut m = GridManagerState::new();
    assert!(m.request(9, GridRequest::SetRegion { x: 1, y: 2, width: 3, height: 4 }));
    assert!(m.get(9).is_some());
    assert!(!m.has_grid(9));
}

#[test]
fn rebinding_keeps_the_declared_state() {
    let mut m = GridManagerState::new();
    m.get_grid(5);
    m.request(5, GridRequest::SetRegion { x: 1, y: 2, width: 3, height: 4 });
    m.get_grid(5);
    assert_eq!(m.get(5).unwrap().region, Some(GridRect { x: 1, y: 2, width: 3, height: 4 }));
}

#[test]
fn destroy_forgets_state_and_object() {
    let mut m = GridManagerState::new();
    m.get_grid(5);
    m.get_grid(6);
    m.destroyed(5);
    assert!(m.get(5).is_none());
    assert!(!m.has_grid(5));
    assert_eq!(m.active_surface_ids(), vec![6]);
}

#[test]
fn active_ids_list_every_bound_surface_once() {
    let mut m = GridManagerState::new();
    for id in [4u64, 1, 9, 4] {
        m.get_grid(id);
    }
    m.register_resource(12);
    m.unregister_resource(9);
    let mut ids = m.active_surface_ids();
    ids.sort();
    assert_eq!(ids, vec![1, 4, 12]);
}

#[test]
fn the_serial_wraps_at_the_top() {
    let mut m = GridManagerState::new();
    m.get_grid(2);
    m.surfaces.get_mut(&2).unwrap().configure_serial = u32::MAX;
    assert_eq!(m.send_configure(2), Some(0));
}

#[test]
fn get_or_create_hands_out_the_surface_state() {
    let mut m = GridManagerState::new();
    arlen_comp::grid::set_region(m.get_or_create(4), 1, 2, 3, -4);
    assert_eq!(m.get(4).unwrap().region, Some(GridRect { x: 1, y: 2, width: 3, height: 0 }));
    assert_eq!(m.get_or_create(4).region, Some(GridRect { x: 1, y: 2, width: 3, height: 0 }));
    assert!(!m.has_grid(4));
}
