//! Per-window state of the `arlen-grid-v1` text-grid back pane.
//!
//! The Arlen terminal declares a grid back pane (a subsurface, its region, its
//! cell metrics, and the DOM holes the front pane owns); the compositor
//! composites the grid under the app window at a whole number of cells and
//! drives a resize handshake by configure serials. This module holds the
//! state those declarations build and the pure rules that update it.

use vstd::prelude::*;

verus! {

/// A toplevel-relative logical-pixel rectangle.
#[derive(Debug, Clone, Copy, PartialEq, Eq, Structural)]
pub struct GridRect {
    /// X origin, relative to the toplevel surface.
    pub x: i32,
    /// Y origin, relative to the toplevel surface.
    pub y: i32,
    /// Width in logical pixels.
    pub width: i32,
    /// Height in logical pixels.
    pub height: i32,
}

impl Default for GridRect {
    fn default() -> (r: Self)
        ensures
            r == (GridRect { x: 0, y: 0, width: 0, height: 0 }),
    {
        GridRect { x: 0, y: 0, width: 0, height: 0 }
    }
}

/// Logical-pixel metrics of one grid cell.
#[derive(Debug, Clone, Copy, PartialEq, Eq, Structural)]
pub struct CellSize {
    /// Cell width in logical pixels.
    pub width: i32,
    /// Cell height in logical pixels.
    pub height: i32,
}

impl Default for CellSize {
    fn default() -> (r: Self)
        ensures
            r == (CellSize { width: 0, height: 0 }),
    {
        CellSize { width: 0, height: 0 }
    }
}

/// Per-window grid back-pane state tracked by the compositor.
#[derive(Debug, Clone)]
pub struct GridState {
    /// `wl_surface` protocol id of the subsurface carrying the grid, if set.
    pub grid_surface_id: Option<u64>,
    /// The toplevel-relative region the grid fills, if declared.
    pub region: Option<GridRect>,
    /// Cell metrics, if declared.
    pub cell: Option<CellSize>,
    /// Opaque DOM-block rectangles the front pane owns.
    pub dom_holes: Vec<GridRect>,
    /// Serial of the most recent `configure` the compositor sent.
    pub configure_serial: u32,
    /// Serial of the most recent configure the app acknowledged.
    pub acked_serial: u32,
}

/// The abstract value of a [`GridState`]: its fields, with the holes as a
/// sequence.
#[verifier::ext_equal]
pub struct GridStateView {
    pub grid_surface_id: Option<u64>,
    pub region: Option<GridRect>,
    pub cell: Option<CellSize>,
    pub dom_holes: Seq<GridRect>,
    pub configure_serial: u32,
    pub acked_serial: u32,
}

impl View for GridState {
    type V = GridStateView;

    open spec fn view(&self) -> GridStateView {
        GridStateView {
            grid_surface_id: self.grid_surface_id,
            region: self.region,
            cell: self.cell,
            dom_holes: self.dom_holes@,
            configure_serial: self.configure_serial,
            acked_serial: self.acked_serial,
        }
    }
}

/// The state of a window that has declared nothing yet.
pub open spec fn empty_grid_state() -> GridStateView {
    GridStateView {
        grid_surface_id: None,
        region: None,
        cell: None,
        dom_holes: Seq::empty(),
        configure_serial: 0,
        acked_serial: 0,
    }
}

impl Default for GridState {
    fn default() -> (s: Self)
        ensures
            s@ == empty_grid_state(),
    {
        GridState {
            grid_surface_id: None,
            region: None,
            cell: None,
            dom_holes: Vec::new(),
            configure_serial: 0,
            acked_serial: 0,
        }
    }
}

/// A declared extent, with a negative value clamped to zero.
pub open spec fn clamp_extent(v: i32) -> i32 {
    if v < 0 {
        0
    } else {
        v
    }
}

/// `r` with its width and height clamped to non-negative.
pub open spec fn clamped(r: GridRect) -> GridRect {
    GridRect { x: r.x, y: r.y, width: clamp_extent(r.width), height: clamp_extent(r.height) }
}

/// Integer division rounding toward zero, as Rust's `/` does (for `d > 0`).
pub open spec fn div_toward_zero(n: int, d: int) -> int {
    if n >= 0 {
        n / d
    } else {
        -((-n) / d)
    }
}

/// One axis of a region snapped down to whole cells; a cell dimension of
/// zero or less leaves the axis as it is.
pub open spec fn aligned_extent(len: i32, cell: i32) -> int {
    if cell > 0 {
        div_toward_zero(len as int, cell as int) * cell
    } else {
        len as int
    }
}

/// `region` snapped to whole cells of `cell`, at the region's origin.
pub open spec fn aligned_rect(region: GridRect, cell: CellSize) -> GridRect {
    GridRect {
        x: region.x,
        y: region.y,
        width: aligned_extent(region.width, cell.width) as i32,
        height: aligned_extent(region.height, cell.height) as i32,
    }
}

/// The rectangle the compositor composites for a grid state: the region,
/// snapped to whole cells when cell metrics are declared; none until a
/// region is declared.
pub open spec fn composited(s: GridStateView) -> Option<GridRect> {
    match s.region {
        None => None,
        Some(region) => Some(
            match s.cell {
                Some(cell) => aligned_rect(region, cell),
                None => region,
            },
        ),
    }
}

/// The holes a parsed `set_dom_holes` payload leaves: every hole clamped when
/// the payload parsed, none when it did not.
pub open spec fn holes_after(parsed: Option<Seq<GridRect>>) -> Seq<GridRect> {
    match parsed {
        Some(holes) => holes.map_values(|h: GridRect| clamped(h)),
        None => Seq::empty(),
    }
}

/// A clamped extent, computed.
fn clamp_to_zero(v: i32) -> (r: i32)
    ensures
        r == clamp_extent(v),
{
    v.max(0)
}

/// Set the grid region, clamping a negative width or height to zero (a
/// degenerate region paints nothing rather than wrapping into a huge rect).
pub fn set_region(state: &mut GridState, x: i32, y: i32, width: i32, height: i32)
    ensures
        final(state)@ == (GridStateView {
            region: Some(
                GridRect { x, y, width: clamp_extent(width), height: clamp_extent(height) },
            ),
            ..old(state)@
        }),
{
    state.region = Some(
        GridRect { x, y, width: clamp_to_zero(width), height: clamp_to_zero(height) },
    );
}

/// Set the cell metrics, clamping to non-negative. A zero dimension disables
/// cell alignment for that axis (see [`cell_aligned_size`]).
pub fn set_cell_size(state: &mut GridState, width: i32, height: i32)
    ensures
        final(state)@ == (GridStateView {
            cell: Some(CellSize { width: clamp_extent(width), height: clamp_extent(height) }),
            ..old(state)@
        }),
{
    state.cell = Some(CellSize { width: clamp_to_zero(width), height: clamp_to_zero(height) });
}

/// Replace the DOM holes from a parsed JSON array of rectangles (`None` when
/// the payload did not parse). Fail-closed: an unparseable payload clears the
/// holes (the grid covers its whole region) rather than keeping a stale set
/// the front pane no longer matches.
pub fn set_dom_holes(state: &mut GridState, parsed: Option<Vec<GridRect>>)
    ensures
        final(state)@ == (GridStateView {
            dom_holes: holes_after(
                match parsed {
                    Some(v) => Some(v@),
                    None => None,
                },
            ),
            ..old(state)@
        }),
{
    match parsed {
        Some(holes) => {
            let mut out: Vec<GridRect> = Vec::new();
            let mut i: usize = 0;
            while i < holes.len()
                invariant
                    0 <= i <= holes.len(),
                    out@ == holes@.take(i as int).map_values(|h: GridRect| clamped(h)),
                decreases holes.len() - i,
            {
                let h = holes[i];
                out.push(
                    GridRect {
                        x: h.x,
                        y: h.y,
                        width: clamp_to_zero(h.width),
                        height: clamp_to_zero(h.height),
                    },
                );
                i = i + 1;
                assert(out@ =~= holes@.take(i as int).map_values(|h: GridRect| clamped(h)));
            }
            assert(holes@.take(holes.len() as int) =~= holes@);
            state.dom_holes = out;
        },
        None => {
            state.dom_holes.clear();
        },
    }
}

/// Record an app's acknowledgement of a `configure` serial. A stale ack (a
/// serial the compositor never sent, i.e. ahead of the latest configure) is
/// ignored, so `acked_serial` never runs ahead of `configure_serial`.
pub fn ack_configure(state: &mut GridState, serial: u32)
    ensures
        final(state)@ == (if serial <= old(state).configure_serial {
            GridStateView { acked_serial: serial, ..old(state)@ }
        } else {
            old(state)@
        }),
{
    if serial <= state.configure_serial {
        state.acked_serial = serial;
    }
}

/// One axis snapped down to whole cells, computed.
fn aligned_axis(len: i32, cell: i32) -> (r: i32)
    ensures
        r as int == aligned_extent(len, cell),
{
    if cell > 0 {
        let q = len / cell;
        proof {
            let n = len as int;
            let d = cell as int;
            if n >= 0 {
                assert(q as int == n / d);
                assert(0 <= (n / d) * d <= n) by (nonlinear_arith)
                    requires
                        n >= 0,
                        d > 0,
                ;
            } else {
                assert(q as int == -((-n) / d));
                assert(0 <= ((-n) / d) * d <= -n) by (nonlinear_arith)
                    requires
                        -n > 0,
                        d > 0,
                ;
                assert(-((-n) / d) * d == -(((-n) / d) * d)) by (nonlinear_arith);
            }
        }
        q * cell
    } else {
        len
    }
}

/// The grid region size snapped down to whole cells, so the compositor never
/// composites a partial cell at the trailing edge. A zero cell dimension (or
/// no cell metrics) leaves that axis unchanged.
pub fn cell_aligned_size(region: GridRect, cell: CellSize) -> (wh: (i32, i32))
    ensures
        wh.0 as int == aligned_extent(region.width, cell.width),
        wh.1 as int == aligned_extent(region.height, cell.height),
{
    (aligned_axis(region.width, cell.width), aligned_axis(region.height, cell.height))
}

/// The cell-aligned grid rectangle the compositor should composite, if both a
/// region and cell metrics are declared; the raw region without cell metrics.
/// `None` until the app has declared its region (nothing to paint yet).
pub fn composited_rect(state: &GridState) -> (r: Option<GridRect>)
    ensures
        r == composited(state@),
{
    let region = match state.region {
        Some(region) => region,
        None => {
            return None;
        },
    };
    let (width, height) = match state.cell {
        Some(cell) => cell_aligned_size(region, cell),
        None => (region.width, region.height),
    };
    Some(GridRect { x: region.x, y: region.y, width, height })
}

/// One axis of the whole-cells law.
proof fn lemma_whole_cells_axis(len: i32, cell: i32)
    requires
        len >= 0,
        cell > 0,
    ensures
        aligned_extent(len, cell) % (cell as int) == 0,
        0 <= aligned_extent(len, cell) <= len,
        len - aligned_extent(len, cell) < cell,
{
    let n = len as int;
    let d = cell as int;
    let q = n / d;
    assert(aligned_extent(len, cell) == q * d);
    assert((q * d) % d == 0) by (nonlinear_arith)
        requires
            d > 0,
    ;
    assert(0 <= q * d <= n && n - q * d < d) by (nonlinear_arith)
        requires
            n >= 0,
            d > 0,
            q == n / d,
    ;
}

/// Law: the compositor never composites a partial cell. With a declared
/// region of non-negative extent and cell metrics, each axis of the
/// composited rectangle is a whole number of cells (for a positive cell
/// dimension), no larger than the region and less than one cell short of
/// it; an axis with a zero cell dimension is the region's own; the origin is
/// the region's.
pub proof fn law_composites_whole_cells(region: GridRect, cell: CellSize)
    requires
        region.width >= 0,
        region.height >= 0,
        cell.width >= 0,
        cell.height >= 0,
    ensures
        ({
            let r = aligned_rect(region, cell);
            &&& r.x == region.x
            &&& r.y == region.y
            &&& cell.width > 0 ==> r.width % cell.width == 0 && 0 <= r.width <= region.width
                && region.width - r.width < cell.width
            &&& cell.width == 0 ==> r.width == region.width
            &&& cell.height > 0 ==> r.height % cell.height == 0 && 0 <= r.height
                <= region.height && region.height - r.height < cell.height
            &&& cell.height == 0 ==> r.height == region.height
        }),
{
    if cell.width > 0 {
        lemma_whole_cells_axis(region.width, cell.width);
    }
    if cell.height > 0 {
        lemma_whole_cells_axis(region.height, cell.height);
    }
}

/// Whether `a` is the extent `len` snapped toward zero to whole cells of
/// `cell`: the multiple of `cell` nearest `len` on the side of zero (so no
/// partial cell is left), or `len` itself when `cell` is not positive.
pub open spec fn whole_cells_of(len: i32, cell: i32, a: i32) -> bool {
    if cell <= 0 {
        a == len
    } else if len >= 0 {
        a % cell == 0 && 0 <= a <= len && len - a < cell
    } else {
        a % cell == 0 && len <= a <= 0 && a - len < cell
    }
}

/// One axis snapped to whole cells is the nearest multiple on the side of
/// zero, for an extent of either sign.
proof fn lemma_aligned_axis_is_whole_cells(len: i32, cell: i32)
    ensures
        whole_cells_of(len, cell, aligned_extent(len, cell) as i32),
        i32::MIN <= aligned_extent(len, cell) <= i32::MAX,
{
    if cell > 0 {
        let n = len as int;
        let d = cell as int;
        if n >= 0 {
            let q = n / d;
            assert(aligned_extent(len, cell) == q * d);
            assert((q * d) % d == 0 && 0 <= q * d <= n && n - q * d < d) by (nonlinear_arith)
                requires
                    n >= 0,
                    d > 0,
                    q == n / d,
            ;
        } else {
            let q = (-n) / d;
            assert(aligned_extent(len, cell) == -q * d);
            assert((-q * d) % d == 0 && n <= -q * d <= 0 && -q * d - n < d) by (nonlinear_arith)
                requires
                    n < 0,
                    d > 0,
                    q == (-n) / d,
            ;
        }
    }
}

/// Law: what the compositor composites for a grid state. Nothing before a
/// region is declared; once one is, a rectangle at the region's own origin
/// (`x` and `y` unchanged), whose width and height are the region's snapped
/// toward zero to whole cells of the declared cell metrics on each axis
/// with a positive cell dimension, and the region's own on every other
/// axis and when no cell metrics are declared.
pub proof fn law_composited_keeps_origin_and_whole_cells(s: GridStateView)
    ensures
        composited(s) is None <==> s.region is None,
        s.region matches Some(region) ==> ({
            let r = composited(s)->0;
            &&& r.x == region.x
            &&& r.y == region.y
            &&& s.cell is None ==> r.width == region.width && r.height == region.height
            &&& s.cell matches Some(cell) ==> whole_cells_of(region.width, cell.width, r.width)
                && whole_cells_of(region.height, cell.height, r.height)
        }),
{
    if let Some(region) = s.region {
        if let Some(cell) = s.cell {
            lemma_aligned_axis_is_whole_cells(region.width, cell.width);
            lemma_aligned_axis_is_whole_cells(region.height, cell.height);
        }
    }
}

/// Law: a declared extent (of a region, a cell or a hole) is never
/// negative: a negative width or height becomes zero, every other value is
/// kept.
pub proof fn law_declared_extents_clamp_at_zero(v: i32)
    ensures
        clamp_extent(v) >= 0,
        v >= 0 ==> clamp_extent(v) == v,
        v < 0 ==> clamp_extent(v) == 0,
{
}

/// Law: DOM holes fail closed. A payload that parsed leaves one hole per
/// parsed rectangle, in order, each at its own origin with a negative width
/// or height clamped to zero; a payload that did not parse leaves no holes
/// at all (the grid covers its whole region).
pub proof fn law_dom_holes_fail_closed(parsed: Seq<GridRect>)
    ensures
        holes_after(None) == Seq::<GridRect>::empty(),
        holes_after(Some(parsed)).len() == parsed.len(),
        forall|i: int|
            0 <= i < parsed.len() ==> {
                let h = #[trigger] holes_after(Some(parsed))[i];
                &&& h.x == parsed[i].x
                &&& h.y == parsed[i].y
                &&& h.width == (if parsed[i].width < 0 {
                    0
                } else {
                    parsed[i].width
                })
                &&& h.height == (if parsed[i].height < 0 {
                    0
                } else {
                    parsed[i].height
                })
            },
{
}

} // verus!
