//! Global state of the `arlen-grid-v1` protocol and the per-surface request
//! rules.
//!
//! The compositor keeps one [`GridState`] per toplevel surface, keyed by the
//! toplevel `wl_surface` protocol id, and remembers which surfaces have a live
//! `arlen_grid_v1` object to send events through. The protocol objects
//! themselves live with the Wayland dispatch code; this type records which
//! surfaces have one.

use std::collections::HashMap;
use std::collections::HashSet;

use vstd::prelude::*;
use vstd::std_specs::iter::IteratorSpec;

use crate::grid::{
    ack_configure, clamp_extent, empty_grid_state, holes_after, set_cell_size, set_dom_holes,
    set_region, CellSize, GridRect, GridState, GridStateView,
};

verus! {

broadcast use vstd::std_specs::hash::group_hash_axioms;

/// A request on a per-surface `arlen_grid_v1` object, as plain values.
pub enum GridRequest {
    /// The subsurface carrying the grid, by its `wl_surface` protocol id.
    SetGridSurface { surface_id: u64 },
    /// The toplevel-relative region the grid fills.
    SetRegion { x: i32, y: i32, width: i32, height: i32 },
    /// The cell metrics.
    SetCellSize { width: i32, height: i32 },
    /// The DOM holes, as the parsed JSON payload (`None` when it did not
    /// parse as an array of rectangles).
    SetDomHoles { holes: Option<Vec<GridRect>> },
    /// The app acknowledges a configure serial.
    AckConfigure { serial: u32 },
    /// The app destroys the grid object.
    Destroy,
    /// A request this compositor does not know.
    Other,
}

/// The state a request leaves a surface in.
pub open spec fn after_request(s: GridStateView, req: GridRequest) -> GridStateView {
    match req {
        GridRequest::SetGridSurface { surface_id } => GridStateView {
            grid_surface_id: Some(surface_id),
            ..s
        },
        GridRequest::SetRegion { x, y, width, height } => GridStateView {
            region: Some(
                GridRect { x, y, width: clamp_extent(width), height: clamp_extent(height) },
            ),
            ..s
        },
        GridRequest::SetCellSize { width, height } => GridStateView {
            cell: Some(CellSize { width: clamp_extent(width), height: clamp_extent(height) }),
            ..s
        },
        GridRequest::SetDomHoles { holes } => GridStateView {
            dom_holes: holes_after(
                match holes {
                    Some(v) => Some(v@),
                    None => None,
                },
            ),
            ..s
        },
        GridRequest::AckConfigure { serial } => if serial <= s.configure_serial {
            GridStateView { acked_serial: serial, ..s }
        } else {
            s
        },
        GridRequest::Destroy => s,
        GridRequest::Other => s,
    }
}

/// The state after the compositor sends a `configure`: the serial is
/// bumped, wrapping at `u32::MAX`.
pub open spec fn after_configure(s: GridStateView) -> GridStateView {
    GridStateView {
        configure_serial: vstd::wrapping::u32_specs::wrapping_add(s.configure_serial, 1),
        ..s
    }
}

/// Whether a request changes the state of a surface that was in `s`, so
/// that its compositing must be recomputed: every declaration does, and so
/// does an acknowledgement that records a new serial (one the compositor
/// has sent, other than the one already acked). A stale or repeated
/// acknowledgement, a destroy and an unknown request do not.
pub open spec fn changes_state(s: GridStateView, req: GridRequest) -> bool {
    match req {
        GridRequest::SetGridSurface { .. } => true,
        GridRequest::SetRegion { .. } => true,
        GridRequest::SetCellSize { .. } => true,
        GridRequest::SetDomHoles { .. } => true,
        GridRequest::AckConfigure { serial } => serial <= s.configure_serial && serial
            != s.acked_serial,
        GridRequest::Destroy => false,
        GridRequest::Other => false,
    }
}

/// Global state for the grid protocol.
pub struct GridManagerState {
    /// Per-surface grid state, keyed by the toplevel `wl_surface` protocol id.
    pub surfaces: HashMap<u64, GridState>,
    /// Surfaces with a live per-surface protocol object to send events to.
    resources: HashSet<u64>,
}

/// The abstract value of a [`GridManagerState`].
#[verifier::ext_equal]
pub struct GridManagerView {
    /// The state of every surface that has one.
    pub surfaces: Map<u64, GridStateView>,
    /// The surfaces with a live grid object.
    pub bound: Set<u64>,
}

impl View for GridManagerState {
    type V = GridManagerView;

    closed spec fn view(&self) -> GridManagerView {
        GridManagerView {
            surfaces: self.surfaces@.map_values(|s: GridState| s@),
            bound: self.resources@,
        }
    }
}

/// The state of surface `id`, or the empty state when it has none.
pub open spec fn state_or_empty(m: GridManagerView, id: u64) -> GridStateView {
    if m.surfaces.contains_key(id) {
        m.surfaces[id]
    } else {
        empty_grid_state()
    }
}

/// Whether surface `id` has acknowledged its latest configure: true when it
/// has no state, or when its acked serial equals its configure serial.
pub open spec fn acked(m: GridManagerView, id: u64) -> bool {
    !m.surfaces.contains_key(id) || m.surfaces[id].acked_serial == m.surfaces[id].configure_serial
}

impl GridManagerState {
    /// The state with no surfaces and no grid objects.
    pub fn new() -> (s: Self)
        ensures
            s@.surfaces == Map::<u64, GridStateView>::empty(),
            s@.bound == Set::<u64>::empty(),
    {
        let s = GridManagerState { surfaces: HashMap::new(), resources: HashSet::new() };
        assert(s@.surfaces =~= Map::<u64, GridStateView>::empty());
        s
    }

    /// Get grid state for a surface (by toplevel surface id).
    pub fn get(&self, surface_id: u64) -> (r: Option<&GridState>)
        ensures
            match r {
                Some(s) => self@.surfaces.contains_key(surface_id) && s@ == self@.surfaces[surface_id],
                None => !self@.surfaces.contains_key(surface_id),
            },
    {
        self.surfaces.get(&surface_id)
    }

    /// Take the state of a surface out of the map (an empty one when it has
    /// none), for a rule to update it before it is put back.
    fn take_state(&mut self, surface_id: u64) -> (s: GridState)
        ensures
            s@ == state_or_empty(old(self)@, surface_id),
            final(self)@.surfaces == old(self)@.surfaces.remove(surface_id),
            final(self)@.bound == old(self)@.bound,
    {
        let r = self.surfaces.remove(&surface_id);
        assert(self@.surfaces =~= old(self)@.surfaces.remove(surface_id));
        match r {
            Some(s) => s,
            None => GridState::default(),
        }
    }

    /// Put the state of a surface (back) into the map.
    fn put_state(&mut self, surface_id: u64, s: GridState)
        ensures
            final(self)@.surfaces == old(self)@.surfaces.insert(surface_id, s@),
            final(self)@.bound == old(self)@.bound,
    {
        let ghost sv = s@;
        self.surfaces.insert(surface_id, s);
        assert(self@.surfaces =~= old(self)@.surfaces.insert(surface_id, sv));
    }

    /// Get mutable grid state, creating an empty one if missing.
    pub fn get_or_create(&mut self, surface_id: u64) -> (st: &mut GridState)
        ensures
            st@ == state_or_empty(old(self)@, surface_id),
            final(self)@.surfaces == old(self)@.surfaces.insert(surface_id, final(st)@),
            final(self)@.bound == old(self)@.bound,
    {
        let entry = self.surfaces.entry(surface_id);
        let st = entry.or_insert(GridState::default());
        st
    }

    /// Record that a surface has a live grid object to send events through.
    pub fn register_resource(&mut self, surface_id: u64)
        ensures
            final(self)@.surfaces == old(self)@.surfaces,
            final(self)@.bound == old(self)@.bound.insert(surface_id),
    {
        self.resources.insert(surface_id);
    }

    /// Forget a surface's grid object (called on destroy).
    pub fn unregister_resource(&mut self, surface_id: u64)
        ensures
            final(self)@.surfaces == old(self)@.surfaces,
            final(self)@.bound == old(self)@.bound.remove(surface_id),
    {
        self.resources.remove(&surface_id);
    }

    /// The `get_grid` request of the grid manager: the surface gets grid
    /// state (kept if it has some) and a live grid object.
    pub fn get_grid(&mut self, surface_id: u64)
        ensures
            final(self)@.surfaces == old(self)@.surfaces.insert(
                surface_id,
                state_or_empty(old(self)@, surface_id),
            ),
            final(self)@.bound == old(self)@.bound.insert(surface_id),
    {
        let s = self.take_state(surface_id);
        self.put_state(surface_id, s);
        assert(self@.surfaces =~= old(self)@.surfaces.insert(
            surface_id,
            state_or_empty(old(self)@, surface_id),
        ));
        self.register_resource(surface_id);
    }

    /// Bump and record the configure serial of a surface with a live grid
    /// object, wrapping at `u32::MAX`, and return the serial to send with the
    /// `configure` event; `None` (and no change) when the surface has no
    /// grid object.
    ///
    /// The compositor only composites the grid at a size the app has acked
    /// (see [`GridManagerState::is_configure_acked`]), so resize stays
    /// glitch-free.
    pub fn send_configure(&mut self, surface_id: u64) -> (serial: Option<u32>)
        ensures
            !old(self)@.bound.contains(surface_id) ==> serial is None && final(self)@ == old(
                self,
            )@,
            old(self)@.bound.contains(surface_id) ==> {
                let after = after_configure(state_or_empty(old(self)@, surface_id));
                &&& serial == Some(after.configure_serial)
                &&& final(self)@.surfaces == old(self)@.surfaces.insert(surface_id, after)
                &&& final(self)@.bound == old(self)@.bound
            },
    {
        if !self.resources.contains(&surface_id) {
            return None;
        }
        let mut st = self.take_state(surface_id);
        st.configure_serial = st.configure_serial.wrapping_add(1);
        let serial = st.configure_serial;
        self.put_state(surface_id, st);
        Some(serial)
    }

    /// Whether the app has acknowledged the latest `configure` for a surface.
    /// True when there is no outstanding configure (a fresh surface that has
    /// never been configured counts as acked: both serials are 0).
    pub fn is_configure_acked(&self, surface_id: u64) -> (b: bool)
        ensures
            b == acked(self@, surface_id),
    {
        match self.surfaces.get(&surface_id) {
            Some(st) => st.acked_serial == st.configure_serial,
            None => true,
        }
    }

    /// Whether a surface has a live grid object.
    pub fn has_grid(&self, surface_id: u64) -> (b: bool)
        ensures
            b == self@.bound.contains(surface_id),
    {
        self.resources.contains(&surface_id)
    }

    /// All surface ids with a live grid object, each once, in no particular
    /// order.
    pub fn active_surface_ids(&self) -> (ids: Vec<u64>)
        ensures
            ids@.to_set() == self@.bound,
            ids@.no_duplicates(),
    {
        let mut ids: Vec<u64> = Vec::new();
        let ghost all = vstd::std_specs::hash::spec_hash_keys_iter(&self.resources).remaining().unref();
        for id in it: self.resources.iter()
            invariant
                it.seq().unref() == all,
                ids@ == all.take(it.index() as int),
                all.to_set() == self@.bound,
                all.no_duplicates(),
        {
            ids.push(*id);
            assert(ids@ =~= all.take(it.index() as int + 1));
        }
        assert(ids@.len() == all.len());
        assert(ids@ =~= all);
        ids
    }

    /// A request on the grid object of surface `surface_id`: the surface's
    /// state (an empty one if it had none) is updated by the request, and the
    /// result says whether that changed the surface's state, so that its
    /// compositing must be recomputed.
    pub fn request(&mut self, surface_id: u64, request: GridRequest) -> (changed: bool)
        ensures
            final(self)@.surfaces == old(self)@.surfaces.insert(
                surface_id,
                after_request(state_or_empty(old(self)@, surface_id), request),
            ),
            final(self)@.bound == old(self)@.bound,
            changed == changes_state(state_or_empty(old(self)@, surface_id), request),
    {
        let ghost req = request;
        let mut st = self.take_state(surface_id);
        let changed = match request {
            GridRequest::SetGridSurface { surface_id: grid_surface } => {
                st.grid_surface_id = Some(grid_surface);
                true
            },
            GridRequest::SetRegion { x, y, width, height } => {
                set_region(&mut st, x, y, width, height);
                true
            },
            GridRequest::SetCellSize { width, height } => {
                set_cell_size(&mut st, width, height);
                true
            },
            GridRequest::SetDomHoles { holes } => {
                set_dom_holes(&mut st, holes);
                true
            },
            GridRequest::AckConfigure { serial } => {
                let fresh = serial <= st.configure_serial && serial != st.acked_serial;
                ack_configure(&mut st, serial);
                fresh
            },
            GridRequest::Destroy => false,
            GridRequest::Other => false,
        };
        assert(st@ =~= after_request(state_or_empty(old(self)@, surface_id), req));
        self.put_state(surface_id, st);
        changed
    }

    /// The grid object of a surface is gone: its state and its object are
    /// both forgotten.
    pub fn destroyed(&mut self, surface_id: u64)
        ensures
            final(self)@.surfaces == old(self)@.surfaces.remove(surface_id),
            final(self)@.bound == old(self)@.bound.remove(surface_id),
    {
        let _ = self.take_state(surface_id);
        self.unregister_resource(surface_id);
    }
}

/// Law: an app's acknowledgement never runs ahead of the compositor's
/// configure serial: no request on a surface where the acked serial is at
/// most the configure serial breaks that.
pub proof fn law_requests_keep_ack_behind_configure(s: GridStateView, req: GridRequest)
    requires
        s.acked_serial <= s.configure_serial,
    ensures
        after_request(s, req).acked_serial <= after_request(s, req).configure_serial,
{
}

/// Law: sending a `configure` keeps the acked serial behind the configure
/// serial, strictly, so the surface is no longer acked until the app answers.
/// It does not hold when the serial wraps (configure serial `u32::MAX`).
pub proof fn law_configure_keeps_ack_behind(s: GridStateView)
    requires
        s.acked_serial <= s.configure_serial,
        s.configure_serial < u32::MAX,
    ensures
        after_configure(s).acked_serial < after_configure(s).configure_serial,
{
}

/// Law: a stale acknowledgement (a serial the compositor never sent) changes
/// nothing, and is not reported as a change.
pub proof fn law_stale_ack_is_ignored(s: GridStateView, serial: u32)
    requires
        serial > s.configure_serial,
    ensures
        after_request(s, GridRequest::AckConfigure { serial }) == s,
        !changes_state(s, GridRequest::AckConfigure { serial }),
{
}

/// The state of a surface after the app acknowledges each serial of `acks`
/// in turn.
pub open spec fn after_acks(s: GridStateView, acks: Seq<u32>) -> GridStateView
    decreases acks.len(),
{
    if acks.len() == 0 {
        s
    } else {
        after_request(
            after_acks(s, acks.drop_last()),
            GridRequest::AckConfigure { serial: acks.last() },
        )
    }
}

/// Acknowledgements never move the configure serial, never put the acked
/// serial ahead of it, and leave a serial that none of them names unacked.
proof fn lemma_acks_keep_serial_pending(s: GridStateView, acks: Seq<u32>, pending: u32)
    requires
        s.acked_serial <= s.configure_serial,
        s.acked_serial != pending,
        forall|i: int| 0 <= i < acks.len() ==> acks[i] != pending,
    ensures
        after_acks(s, acks).configure_serial == s.configure_serial,
        after_acks(s, acks).acked_serial <= s.configure_serial,
        after_acks(s, acks).acked_serial != pending,
    decreases acks.len(),
{
    if acks.len() > 0 {
        lemma_acks_keep_serial_pending(s, acks.drop_last(), pending);
    }
}

/// Law: the resize handshake waits for the serial that was sent. After the
/// compositor sends a `configure` to a surface whose acks were not ahead of
/// its configures, the surface stays unacked through any number of
/// acknowledgements of other serials; one acknowledgement of the serial that
/// was sent makes it acked. It does not hold when the serial wraps
/// (configure serial `u32::MAX`).
pub proof fn law_handshake_waits_for_the_sent_serial(m: GridManagerView, id: u64, acks: Seq<u32>)
    requires
        state_or_empty(m, id).acked_serial <= state_or_empty(m, id).configure_serial,
        state_or_empty(m, id).configure_serial < u32::MAX,
        forall|i: int|
            0 <= i < acks.len() ==> acks[i] != after_configure(
                state_or_empty(m, id),
            ).configure_serial,
    ensures
        ({
            let sent = after_configure(state_or_empty(m, id));
            let waiting = after_acks(sent, acks);
            let m1 = GridManagerView { surfaces: m.surfaces.insert(id, waiting), bound: m.bound };
            let m2 = GridManagerView {
                surfaces: m1.surfaces.insert(
                    id,
                    after_request(
                        state_or_empty(m1, id),
                        GridRequest::AckConfigure { serial: sent.configure_serial },
                    ),
                ),
                bound: m1.bound,
            };
            &&& waiting.configure_serial == sent.configure_serial
            &&& !acked(m1, id)
            &&& acked(m2, id)
        }),
{
    let sent = after_configure(state_or_empty(m, id));
    lemma_acks_keep_serial_pending(sent, acks, sent.configure_serial);
}

/// What happens to the set of surfaces with a live grid object.
pub enum BindingEvent {
    /// [`GridManagerState::register_resource`].
    Register(u64),
    /// [`GridManagerState::get_grid`].
    GetGrid(u64),
    /// [`GridManagerState::unregister_resource`].
    Unregister(u64),
    /// [`GridManagerState::destroyed`].
    Destroyed(u64),
}

/// The surfaces with a live grid object after one event, as the `ensures`
/// of the four methods state it.
pub open spec fn bound_after_event(bound: Set<u64>, e: BindingEvent) -> Set<u64> {
    match e {
        BindingEvent::Register(id) => bound.insert(id),
        BindingEvent::GetGrid(id) => bound.insert(id),
        BindingEvent::Unregister(id) => bound.remove(id),
        BindingEvent::Destroyed(id) => bound.remove(id),
    }
}

/// The surfaces with a live grid object after `events`, starting from
/// [`GridManagerState::new`].
pub open spec fn bound_after_events(events: Seq<BindingEvent>) -> Set<u64>
    decreases events.len(),
{
    if events.len() == 0 {
        Set::empty()
    } else {
        bound_after_event(bound_after_events(events.drop_last()), events.last())
    }
}

/// Whether an event is about surface `id`, and whether it gives it a grid
/// object.
pub open spec fn concerns(e: BindingEvent, id: u64) -> bool {
    match e {
        BindingEvent::Register(x) => x == id,
        BindingEvent::GetGrid(x) => x == id,
        BindingEvent::Unregister(x) => x == id,
        BindingEvent::Destroyed(x) => x == id,
    }
}

/// Whether the last of `events` that concerns surface `id` gave it a grid
/// object (false when none concerns it).
pub open spec fn last_concerning_binds(events: Seq<BindingEvent>, id: u64) -> bool
    decreases events.len(),
{
    if events.len() == 0 {
        false
    } else if concerns(events.last(), id) {
        events.last() is Register || events.last() is GetGrid
    } else {
        last_concerning_binds(events.drop_last(), id)
    }
}

/// Law: from a fresh manager, after any sequence of registrations,
/// unregistrations, `get_grid` requests and destructions, a surface has a
/// grid object exactly when the last of those that concerns it gave it one,
/// and a list of ids that holds exactly the bound surfaces (as
/// [`GridManagerState::active_surface_ids`] returns) holds it then and only
/// then.
pub proof fn law_has_grid_follows_the_last_binding(events: Seq<BindingEvent>, id: u64)
    ensures
        bound_after_events(events).contains(id) <==> last_concerning_binds(events, id),
        forall|ids: Seq<u64>|
            ids.to_set() == bound_after_events(events) ==> (ids.contains(id)
                <==> last_concerning_binds(events, id)),
    decreases events.len(),
{
    if events.len() > 0 {
        law_has_grid_follows_the_last_binding(events.drop_last(), id);
    }
    assert forall|ids: Seq<u64>| ids.to_set() == bound_after_events(events) implies (ids.contains(
        id,
    ) <==> last_concerning_binds(events, id)) by {
        assert(ids.to_set().contains(id) == ids.contains(id));
    }
}

/// The views along a run of calls track the fold of their events: the view
/// after `i` events has the bound set of the first `i` events.
proof fn lemma_views_track_events(events: Seq<BindingEvent>, views: Seq<GridManagerView>, i: int)
    requires
        views.len() == events.len() + 1,
        views[0].bound == Set::<u64>::empty(),
        forall|j: int|
            0 <= j < events.len() ==> #[trigger] views[j + 1].bound == bound_after_event(
                views[j].bound,
                events[j],
            ),
        0 <= i <= events.len(),
    ensures
        views[i].bound == bound_after_events(events.take(i)),
    decreases i,
{
    if i > 0 {
        lemma_views_track_events(events, views, i - 1);
        assert(events.take(i).drop_last() =~= events.take(i - 1));
        assert(views[(i - 1) + 1].bound == bound_after_event(views[i - 1].bound, events[i - 1]));
    } else {
        assert(events.take(0).len() == 0);
    }
}

/// Law: the same, through the methods. Let `views` be the manager's views
/// along a run of calls from [`GridManagerState::new`], each step changing
/// the bound surfaces as the called method's `ensures` says. At the end,
/// [`GridManagerState::has_grid`] holds of a surface exactly when the last
/// call that concerned it gave it a grid object, and so does membership in
/// any list that [`GridManagerState::active_surface_ids`] may return.
pub proof fn law_has_grid_through_calls(
    events: Seq<BindingEvent>,
    views: Seq<GridManagerView>,
    id: u64,
)
    requires
        views.len() == events.len() + 1,
        views[0].bound == Set::<u64>::empty(),
        forall|j: int|
            0 <= j < events.len() ==> #[trigger] views[j + 1].bound == bound_after_event(
                views[j].bound,
                events[j],
            ),
    ensures
        views.last().bound.contains(id) <==> last_concerning_binds(events, id),
        forall|ids: Seq<u64>|
            ids.to_set() == views.last().bound ==> (ids.contains(id) <==> last_concerning_binds(
                events,
                id,
            )),
{
    lemma_views_track_events(events, views, events.len() as int);
    assert(events.take(events.len() as int) =~= events);
    law_has_grid_follows_the_last_binding(events, id);
}

/// Whether `next` is `m` after the app acknowledged `serial` on surface
/// `id`, as [`GridManagerState::request`] states it for the surfaces.
pub open spec fn acked_on(m: GridManagerView, id: u64, serial: u32, next: GridManagerView) -> bool {
    next.surfaces == m.surfaces.insert(
        id,
        after_request(state_or_empty(m, id), GridRequest::AckConfigure { serial }),
    )
}

/// Along a run of acknowledgements after a configure, the surface's state
/// is the sent state with the acknowledgements so far applied.
proof fn lemma_views_track_acks(
    sent: GridStateView,
    acks: Seq<u32>,
    views: Seq<GridManagerView>,
    id: u64,
    i: int,
)
    requires
        views.len() == acks.len() + 2,
        state_or_empty(views[1], id) == sent,
        forall|j: int| 0 <= j < acks.len() ==> #[trigger] acked_on(views[j + 1], id, acks[j], views[j + 2]),
        0 <= i <= acks.len(),
    ensures
        state_or_empty(views[i + 1], id) == after_acks(sent, acks.take(i)),
    decreases i,
{
    if i > 0 {
        lemma_views_track_acks(sent, acks, views, id, i - 1);
        assert(acks.take(i).drop_last() =~= acks.take(i - 1));
        assert(acked_on(views[(i - 1) + 1], id, acks[i - 1], views[(i - 1) + 2]));
    } else {
        assert(acks.take(0) =~= Seq::<u32>::empty());
    }
}

/// Law: the resize handshake, through the methods. Let `views` be the
/// manager's views along a run of calls on surface `id`: a
/// [`GridManagerState::send_configure`] that sent serial `n` (its acked
/// serial was not ahead of its configure serial, and that was below
/// `u32::MAX`), then acknowledgements of `acks` through
/// [`GridManagerState::request`], none of them `n`. Then
/// [`GridManagerState::is_configure_acked`] is false at the end, and true
/// after one more acknowledgement of `n`.
pub proof fn law_handshake_through_calls(
    acks: Seq<u32>,
    views: Seq<GridManagerView>,
    id: u64,
    last: GridManagerView,
)
    requires
        views.len() == acks.len() + 2,
        state_or_empty(views[0], id).acked_serial <= state_or_empty(views[0], id).configure_serial,
        state_or_empty(views[0], id).configure_serial < u32::MAX,
        views[1].surfaces == views[0].surfaces.insert(
            id,
            after_configure(state_or_empty(views[0], id)),
        ),
        forall|j: int| 0 <= j < acks.len() ==> #[trigger] acked_on(views[j + 1], id, acks[j], views[j + 2]),
        forall|j: int|
            0 <= j < acks.len() ==> acks[j] != after_configure(
                state_or_empty(views[0], id),
            ).configure_serial,
        acked_on(
            views.last(),
            id,
            after_configure(state_or_empty(views[0], id)).configure_serial,
            last,
        ),
    ensures
        !acked(views.last(), id),
        acked(last, id),
{
    let sent = after_configure(state_or_empty(views[0], id));
    lemma_views_track_acks(sent, acks, views, id, acks.len() as int);
    assert(acks.take(acks.len() as int) =~= acks);
    lemma_acks_keep_serial_pending(sent, acks, sent.configure_serial);
    assert(views.last() == views[acks.len() as int + 1]);
}

/// Law: sending a `configure` bumps the surface's configure serial by one,
/// wrapping from `u32::MAX` to 0, and changes nothing else.
pub proof fn law_configure_bumps_the_serial(s: GridStateView)
    ensures
        after_configure(s).configure_serial == (if s.configure_serial == u32::MAX {
            0
        } else {
            s.configure_serial + 1
        }),
        after_configure(s).acked_serial == s.acked_serial,
        after_configure(s).region == s.region,
        after_configure(s).cell == s.cell,
        after_configure(s).dom_holes == s.dom_holes,
        after_configure(s).grid_surface_id == s.grid_surface_id,
{
}

/// Law: what each request on a surface does. Each declaration records what
/// it declares (extents clamped at zero) and leaves every other part of the
/// state alone, and is reported as a change. An acknowledgement of a serial
/// the compositor has sent records it, one it has not sent is ignored, and
/// it is reported as a change exactly when it changes the state. (What DOM
/// holes a payload leaves is the law `law_dom_holes_fail_closed`.) `Destroy`
/// and unknown requests change nothing and report nothing. No request moves
/// the configure serial.
pub proof fn law_request_effects(
    s: GridStateView,
    req: GridRequest,
    x: i32,
    y: i32,
    width: i32,
    height: i32,
    id: u64,
    serial: u32,
    holes: Option<Vec<GridRect>>,
)
    ensures
        after_request(s, req).configure_serial == s.configure_serial,
        ({
            let t = after_request(s, GridRequest::SetGridSurface { surface_id: id });
            &&& t.grid_surface_id == Some(id)
            &&& t.region == s.region && t.cell == s.cell && t.dom_holes == s.dom_holes
            &&& t.acked_serial == s.acked_serial
        }),
        ({
            let t = after_request(s, GridRequest::SetRegion { x, y, width, height });
            &&& t.region == Some(
                GridRect {
                    x,
                    y,
                    width: if width < 0 {
                        0
                    } else {
                        width
                    },
                    height: if height < 0 {
                        0
                    } else {
                        height
                    },
                },
            )
            &&& t.grid_surface_id == s.grid_surface_id && t.cell == s.cell && t.dom_holes
                == s.dom_holes
            &&& t.acked_serial == s.acked_serial
        }),
        ({
            let t = after_request(s, GridRequest::SetCellSize { width, height });
            &&& t.cell == Some(
                CellSize {
                    width: if width < 0 {
                        0
                    } else {
                        width
                    },
                    height: if height < 0 {
                        0
                    } else {
                        height
                    },
                },
            )
            &&& t.grid_surface_id == s.grid_surface_id && t.region == s.region && t.dom_holes
                == s.dom_holes
            &&& t.acked_serial == s.acked_serial
        }),
        ({
            let t = after_request(s, GridRequest::SetDomHoles { holes });
            &&& t.dom_holes == holes_after(
                match holes {
                    Some(v) => Some(v@),
                    None => None,
                },
            )
            &&& t.grid_surface_id == s.grid_surface_id && t.region == s.region && t.cell
                == s.cell
            &&& t.acked_serial == s.acked_serial
        }),
        serial <= s.configure_serial ==> after_request(
            s,
            GridRequest::AckConfigure { serial },
        ).acked_serial == serial,
        serial > s.configure_serial ==> after_request(s, GridRequest::AckConfigure { serial }) == s,
        after_request(s, GridRequest::AckConfigure { serial }).region == s.region,
        after_request(s, GridRequest::AckConfigure { serial }).cell == s.cell,
        changes_state(s, GridRequest::AckConfigure { serial }) <==> after_request(
            s,
            GridRequest::AckConfigure { serial },
        ) != s,
        after_request(s, GridRequest::Destroy) == s && !changes_state(s, GridRequest::Destroy),
        after_request(s, GridRequest::Other) == s && !changes_state(s, GridRequest::Other),
        changes_state(s, GridRequest::SetGridSurface { surface_id: id }),
        changes_state(s, GridRequest::SetRegion { x, y, width, height }),
        changes_state(s, GridRequest::SetCellSize { width, height }),
        changes_state(s, GridRequest::SetDomHoles { holes }),
{
    let a = after_request(s, GridRequest::AckConfigure { serial });
    if serial <= s.configure_serial && serial == s.acked_serial {
        assert(a =~= s);
    }
    if serial <= s.configure_serial && serial != s.acked_serial {
        assert(a.acked_serial != s.acked_serial);
    }
}

/// Law: a surface the manager holds no state for has declared nothing and
/// counts as acknowledged (both serials 0); one it holds state for is
/// acknowledged exactly when its acked serial equals its configure serial.
pub proof fn law_acked_surfaces(m: GridManagerView, id: u64)
    ensures
        !m.surfaces.contains_key(id) ==> {
            &&& acked(m, id)
            &&& state_or_empty(m, id).region is None
            &&& state_or_empty(m, id).cell is None
            &&& state_or_empty(m, id).grid_surface_id is None
            &&& state_or_empty(m, id).dom_holes.len() == 0
            &&& state_or_empty(m, id).configure_serial == 0
            &&& state_or_empty(m, id).acked_serial == 0
        },
        m.surfaces.contains_key(id) ==> (acked(m, id) <==> m.surfaces[id].acked_serial
            == m.surfaces[id].configure_serial) && state_or_empty(m, id) == m.surfaces[id],
{
}

} // verus!
