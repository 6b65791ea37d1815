use arlen_comp::grid::{
    ack_configure, cell_aligned_size, composited_rect, set_cell_size, set_dom_holes, set_region,
    CellSize, GridRect, GridState,
};

fn empty() -> GridState {
    GridState::default()
}

/// A JSON array of rectangles as the compositor's JSON layer reads it:
/// `None` unless every element is an object with integer `x`, `y`, `width`
/// and `height` that fit `i32`.
fn parse_holes(json: &str) -> Option<Vec<GridRect>> {
    let value: serde_json::Value = serde_json::from_str(json).ok()?;
    let items = value.as_array()?;
    let mut out = Vec::new();
    for item in items {
        let obj = item.as_object()?;
        let field = |name: &str| -> Option<i32> {
            i32::try_from(obj.get(name)?.as_i64()?).ok()
        };
        out.push(GridRect {
            x: field("x")?,
            y: field("y")?,
            width: field("width")?,
            height: field("height")?,
        });
    }
    Some(out)
}

/// The JSON text of a list of rectangles.
fn holes_json(holes: &[GridRect]) -> String {
    let items: Vec<serde_json::Value> = holes
        .iter()
        .map(|h| {
            let mut m = serde_json::Map::new();
            m.insert("x".to_string(), serde_json::Value::from(h.x));
            m.insert("y".to_string(), serde_json::Value::from(h.y));
            m.insert("width".to_string(), serde_json::Value::from(h.width));
            m.insert("height".to_string(), serde_json::Value::from(h.height));
            serde_json::Value::Object(m)
        })
        .collect();
    serde_json::to_string(&serde_json::Value::Array(items)).unwrap()
}

#[test]
fn set_region_records_the_rect() {
    let mut s = empty();
    set_region(&mut s, 0, 36, 800, 600);
    assert_eq!(
        s.region,
        Some(GridRect {
            x: 0,
            y: 36,
            width: 800,
            height: 600
        })
    );
}

#[test]
fn set_region_clamps_negative_extent_to_zero() {
    let mut s = empty();
    set_region(&mut s, 10, 10, -5, -1);
    let r = s.region.unwrap();
    assert_eq!((r.width, r.height), (0, 0));
}

#[test]
fn set_cell_size_clamps_negative() {
    let mut s = empty();
    set_cell_size(&mut s, -8, 18);
    assert_eq!(s.cell, Some(CellSize { width: 0, height: 18 }));
}

#[test]
fn dom_holes_parse_round_trips() {
    let mut s = empty();
    let json = holes_json(&[
        GridRect { x: 0, y: 0, width: 100, height: 40 },
        GridRect { x: 0, y: 200, width: 300, height: 80 },
    ]);
    set_dom_holes(&mut s, parse_holes(&json));
    assert_eq!(s.dom_holes.len(), 2);
    assert_eq!(s.dom_holes[1].height, 80);
}

#[test]
fn dom_holes_empty_array_clears() {
    let mut s = empty();
    s.dom_holes = vec![GridRect { x: 1, y: 2, width: 3, height: 4 }];
    set_dom_holes(&mut s, parse_holes("[]"));
    assert!(s.dom_holes.is_empty());
}

#[test]
fn dom_holes_invalid_json_fails_closed_to_empty() {
    let mut s = empty();
    s.dom_holes = vec![GridRect { x: 1, y: 2, width: 3, height: 4 }];
    set_dom_holes(&mut s, parse_holes("not json {{{"));
    assert!(s.dom_holes.is_empty());
}

#[test]
fn dom_holes_clamp_negative_extent() {
    let mut s = empty();
    set_dom_holes(&mut s, parse_holes(r#"[{"x":5,"y":5,"width":-10,"height":-2}]"#));
    assert_eq!((s.dom_holes[0].width, s.dom_holes[0].height), (0, 0));
}

#[test]
fn ack_records_a_valid_serial() {
    let mut s = empty();
    s.configure_serial = 3;
    ack_configure(&mut s, 3);
    assert_eq!(s.acked_serial, 3);
}

#[test]
fn ack_ignores_a_serial_the_compositor_never_sent() {
    let mut s = empty();
    s.configure_serial = 1;
    ack_configure(&mut s, 5);
    assert_eq!(s.acked_serial, 0);
}

#[test]
fn cell_aligned_size_snaps_down_to_whole_cells() {
    let region = GridRect { x: 0, y: 0, width: 805, height: 607 };
    let cell = CellSize { width: 8, height: 18 };
    // 805 / 8 = 100 cells -> 800; 607 / 18 = 33 cells -> 594.
    assert_eq!(cell_aligned_size(region, cell), (800, 594));
}

#[test]
fn cell_aligned_size_zero_cell_leaves_axis_unchanged() {
    let region = GridRect { x: 0, y: 0, width: 805, height: 607 };
    let cell = CellSize { width: 0, height: 18 };
    assert_eq!(cell_aligned_size(region, cell), (805, 594));
}

#[test]
fn composited_rect_is_none_until_a_region_is_set() {
    let mut s = empty();
    assert!(composited_rect(&s).is_none());
    set_cell_size(&mut s, 8, 18);
    assert!(composited_rect(&s).is_none());
}

#[test]
fn composited_rect_aligns_to_cells_when_both_declared() {
    let mut s = empty();
    set_region(&mut s, 0, 36, 805, 607);
    set_cell_size(&mut s, 8, 18);
    assert_eq!(
        composited_rect(&s),
        Some(GridRect { x: 0, y: 36, width: 800, height: 594 })
    );
}

#[test]
fn composited_rect_uses_raw_region_without_cell_metrics() {
    let mut s = empty();
    set_region(&mut s, 0, 0, 805, 607);
    assert_eq!(
        composited_rect(&s),
        Some(GridRect { x: 0, y: 0, width: 805, height: 607 })
    );
}

#[test]
fn a_negative_region_rounds_toward_zero() {
    let region = GridRect { x: 0, y: 0, width: -805, height: -17 };
    let cell = CellSize { width: 8, height: 18 };
    assert_eq!(cell_aligned_size(region, cell), (-800, 0));
}

#[test]
fn composited_rect_is_whole_cells_and_never_larger() {
    for w in 0..100 {
        for cw in 1..12 {
            let region = GridRect { x: 3, y: 4, width: w, height: w };
            let (aw, _) = cell_aligned_size(region, CellSize { width: cw, height: 0 });
            assert_eq!(aw % cw, 0);
            assert!(aw <= w && w - aw < cw);
        }
    }
}

#[test]
fn acked_serial_never_runs_ahead() {
    let mut s = empty();
    s.configure_serial = 2;
    ack_configure(&mut s, 2);
    ack_configure(&mut s, 3);
    assert_eq!(s.acked_serial, 2);
    ack_configure(&mut s, 1);
    assert_eq!(s.acked_serial, 1);
}
