use grid_layout::{Child, Grid, GridRange, Rect, Widget};

fn widget(id: u64) -> Widget {
    Widget { id, rect: Rect { x: -7, y: -8, w: 9, h: 10 } }
}

fn widget_rect(g: &Grid, row: i32, col: i32, row_span: i32, col_span: i32) -> Option<Rect> {
    for p in g.placements.iter() {
        if p.row == row && p.col == col && p.row_span == row_span && p.col_span == col_span {
            if let Child::Widget(w) = &p.child {
                return Some(w.rect);
            }
        }
    }
    None
}

#[test]
fn uniform_partition_five_by_five() {
    let mut g = Grid::new(1, 0, 0, 300, 300);
    assert!(g.set_layout(5, 5));
    for row in 0..5 {
        for col in 0..5 {
            let rc = g.find_cell(row, col).unwrap();
            assert_eq!(rc.w, 60);
            assert_eq!(rc.h, 60);
            assert_eq!(rc.x, col * 60);
            assert_eq!(rc.y, row * 60);
        }
    }
}

#[test]
fn uniform_partition_rounds_down() {
    let mut g = Grid::new(1, 10, 20, 300, 200);
    assert!(g.set_layout(3, 7));
    // 300 / 7 == 42 and 200 / 3 == 66, the same for every cell
    for row in 0..3 {
        for col in 0..7 {
            let rc = g.find_cell(row, col).unwrap();
            assert_eq!(rc.w, 42);
            assert_eq!(rc.h, 66);
            assert_eq!(rc.x, 10 + col * 42);
            assert_eq!(rc.y, 20 + row * 66);
        }
    }
}

#[test]
fn find_cell_needs_configuration() {
    let g = Grid::new(1, 0, 0, 300, 300);
    assert!(g.find_cell(0, 0).is_none());
}

#[test]
fn set_layout_rejects_zero_counts() {
    let mut g = Grid::new(1, 0, 0, 300, 300);
    assert!(!g.set_layout(0, 5));
    assert!(!g.set_layout(5, 0));
    assert!(!g.set_layout(-1, 3));
    assert_eq!(g.rows, 0);
    assert_eq!(g.cols, 0);
    assert!(g.set_layout(5, 5));
    assert_eq!(g.rows, 5);
    assert_eq!(g.cols, 5);
}

#[test]
fn insert_places_widget_at_cell() {
    let mut g = Grid::new(1, 0, 0, 300, 300);
    assert!(g.set_layout(5, 5));
    let mut w = widget(11);
    assert!(g.insert_ext(&mut w, 1, 2, 1, 1));
    assert_eq!(w.rect, Rect { x: 120, y: 60, w: 60, h: 60 });
    assert_eq!(widget_rect(&g, 1, 2, 1, 1), Some(w.rect));
}

#[test]
fn span_geometry() {
    // row_span multiplies the cell width, col_span the cell height
    let mut g = Grid::new(1, 0, 0, 300, 300);
    assert!(g.set_layout(5, 5));
    let mut w = widget(12);
    assert!(g.insert_ext(&mut w, 1, 2, 2, 3));
    assert_eq!(w.rect.x, 120);
    assert_eq!(w.rect.y, 60);
    assert_eq!(w.rect.w, 2 * 60);
    assert_eq!(w.rect.h, 3 * 60);
}

#[test]
fn range_insert_maps_ranges_to_axes() {
    // rows 2..5 set the anchor row and the height; cols 1..2 the width
    let mut g = Grid::new(1, 0, 0, 300, 300);
    assert!(g.set_layout(5, 5));
    let mut w = widget(13);
    assert!(g.insert(&mut w, GridRange::from(2..5), GridRange::from(1..2)));
    assert_eq!(w.rect, Rect { x: 60, y: 120, w: 60, h: 180 });
    assert_eq!(widget_rect(&g, 2, 1, 1, 3), Some(w.rect));
}

#[test]
fn single_index_is_a_one_cell_range() {
    let mut g = Grid::new(1, 0, 0, 300, 300);
    assert!(g.set_layout(5, 5));
    let mut w = widget(14);
    assert!(g.insert(&mut w, GridRange::from(0), GridRange::from(1)));
    assert_eq!(w.rect, Rect { x: 60, y: 0, w: 60, h: 60 });
}

#[test]
fn out_of_range_is_rejected_and_changes_nothing() {
    let mut g = Grid::new(1, 0, 0, 300, 300);
    assert!(g.set_layout(5, 5));
    let mut w = widget(15);
    let before = w.rect;
    assert!(!g.insert_ext(&mut w, 5, 0, 1, 1));
    assert_eq!(w.rect, before);
    assert!(g.placements.is_empty());
}

#[test]
fn unconfigured_grid_rejects_placement() {
    let mut g = Grid::new(1, 0, 0, 300, 300);
    let mut w = widget(16);
    let before = w.rect;
    assert!(!g.insert_ext(&mut w, 0, 0, 1, 1));
    assert_eq!(w.rect, before);
    assert!(g.placements.is_empty());
}

#[test]
fn same_key_replaces_entry() {
    let mut g = Grid::new(1, 0, 0, 300, 300);
    assert!(g.set_layout(5, 5));
    let mut a = widget(21);
    let mut b = widget(22);
    assert!(g.insert_ext(&mut a, 1, 1, 1, 1));
    assert!(g.insert_ext(&mut b, 1, 1, 1, 1));
    assert_eq!(g.placements.len(), 1);
    if let Child::Widget(wd) = &g.placements[0].child {
        assert_eq!(wd.id, 22);
    } else {
        panic!("expected a widget child");
    }
}

#[test]
fn resize_recomputes_every_placement() {
    let mut g = Grid::new(1, 0, 0, 300, 300);
    assert!(g.set_layout(5, 5));
    let mut a = widget(31);
    let mut b = widget(32);
    assert!(g.insert_ext(&mut a, 0, 0, 1, 1));
    assert!(g.insert_ext(&mut b, 2, 3, 2, 1));
    assert!(g.resize(10, 20, 600, 450));
    // fresh cells are 120 x 90, offset by the new origin
    assert_eq!(widget_rect(&g, 0, 0, 1, 1), Some(Rect { x: 10, y: 20, w: 120, h: 90 }));
    assert_eq!(
        widget_rect(&g, 2, 3, 2, 1),
        Some(Rect { x: 10 + 3 * 120, y: 20 + 2 * 90, w: 240, h: 90 })
    );
    assert_eq!(g.w, 600);
    assert_eq!(g.h, 450);
}

#[test]
fn resize_is_idempotent() {
    let mut g = Grid::new(1, 0, 0, 300, 300);
    assert!(g.set_layout(5, 5));
    let mut a = widget(41);
    assert!(g.insert_ext(&mut a, 1, 2, 2, 3));
    assert!(g.resize(5, 6, 451, 307));
    let first = widget_rect(&g, 1, 2, 2, 3).unwrap();
    assert!(g.resize(5, 6, 451, 307));
    let second = widget_rect(&g, 1, 2, 2, 3).unwrap();
    assert_eq!(first, second);
}

#[test]
fn resize_rejected_while_unconfigured() {
    let mut g = Grid::new(1, 0, 0, 300, 300);
    assert!(!g.resize(0, 0, 600, 600));
    assert_eq!(g.w, 300);
    assert_eq!(g.h, 300);
}

#[test]
fn resize_skips_out_of_range_placement() {
    let mut g = Grid::new(1, 0, 0, 300, 300);
    assert!(g.set_layout(5, 5));
    let mut a = widget(51);
    assert!(g.insert_ext(&mut a, 4, 4, 1, 1));
    // shrink the partition under the recorded anchor
    assert!(g.set_layout(2, 2));
    let before = widget_rect(&g, 4, 4, 1, 1).unwrap();
    assert!(g.resize(0, 0, 200, 200));
    assert_eq!(widget_rect(&g, 4, 4, 1, 1), Some(before));
}

#[test]
fn remove_deletes_all_matching_placements() {
    let mut g = Grid::new(1, 0, 0, 300, 300);
    assert!(g.set_layout(5, 5));
    let mut a = widget(61);
    let mut b = widget(62);
    assert!(g.insert_ext(&mut a, 0, 0, 1, 1));
    assert!(g.insert_ext(&mut a, 1, 1, 1, 1));
    assert!(g.insert_ext(&mut b, 2, 2, 1, 1));
    g.remove(&a);
    assert_eq!(g.placements.len(), 1);
    assert_eq!(widget_rect(&g, 2, 2, 1, 1), Some(b.rect));
    // a later resize recomputes the remaining widget only
    assert!(g.resize(0, 0, 600, 600));
    assert!(widget_rect(&g, 0, 0, 1, 1).is_none());
    assert!(widget_rect(&g, 1, 1, 1, 1).is_none());
    assert_eq!(widget_rect(&g, 2, 2, 1, 1), Some(Rect { x: 240, y: 240, w: 120, h: 120 }));
}

#[test]
fn remove_of_unplaced_widget_is_a_no_op() {
    let mut g = Grid::new(1, 0, 0, 300, 300);
    assert!(g.set_layout(5, 5));
    let mut a = widget(71);
    assert!(g.insert_ext(&mut a, 0, 0, 1, 1));
    g.remove(&widget(99));
    assert_eq!(g.placements.len(), 1);
}

#[test]
fn nested_grid_is_resized_and_relaid_out() {
    let mut inner = Grid::new(2, 0, 0, 100, 100);
    assert!(inner.set_layout(2, 2));
    let mut iw = widget(81);
    assert!(inner.insert_ext(&mut iw, 1, 1, 1, 1));

    let mut outer = Grid::new(1, 0, 0, 300, 300);
    assert!(outer.set_layout(3, 3));
    assert!(outer.insert_grid_ext(inner, 1, 1, 2, 1).is_ok());

    // the inner grid occupies the spanned cell rectangle at once
    let stored = match &outer.placements[0].child {
        Child::Grid(g) => g,
        Child::Widget(_) => panic!("expected a nested grid"),
    };
    assert_eq!((stored.x, stored.y, stored.w, stored.h), (100, 100, 200, 100));
    // and its own placement was relaid out for it: inner cells are 100 x 50
    if let Child::Widget(w) = &stored.placements[0].child {
        assert_eq!(w.rect, Rect { x: 100 + 100, y: 100 + 50, w: 100, h: 50 });
    } else {
        panic!("expected a widget inside the nested grid");
    }

    // resizing the outer grid moves the inner grid and, transitively, its
    // own placements
    assert!(outer.resize(0, 0, 600, 600));
    let stored = match &outer.placements[0].child {
        Child::Grid(g) => g,
        Child::Widget(_) => panic!("expected a nested grid"),
    };
    assert_eq!((stored.x, stored.y, stored.w, stored.h), (200, 200, 400, 200));
    if let Child::Widget(w) = &stored.placements[0].child {
        assert_eq!(w.rect, Rect { x: 200 + 200, y: 200 + 100, w: 200, h: 100 });
    } else {
        panic!("expected a widget inside the nested grid");
    }
}

#[test]
fn nested_grid_rejected_out_of_range_comes_back() {
    let mut inner = Grid::new(2, 0, 0, 100, 100);
    assert!(inner.set_layout(2, 2));
    let mut outer = Grid::new(1, 0, 0, 300, 300);
    assert!(outer.set_layout(3, 3));
    match outer.insert_grid_ext(inner, 3, 0, 1, 1) {
        Err(back) => {
            assert_eq!(back.id, 2);
            assert_eq!((back.w, back.h), (100, 100));
        },
        Ok(()) => panic!("a placement one past the last row must be rejected"),
    }
    assert!(outer.placements.is_empty());
}

#[test]
fn nested_grid_is_removed_by_its_identity() {
    let mut inner = Grid::new(5, 0, 0, 100, 100);
    assert!(inner.set_layout(1, 1));
    let mut outer = Grid::new(1, 0, 0, 300, 300);
    assert!(outer.set_layout(3, 3));
    assert!(outer.insert_grid(inner, GridRange::from(0), GridRange::from(0)).is_ok());
    assert_eq!(outer.placements.len(), 1);
    outer.remove(&widget(5));
    assert!(outer.placements.is_empty());
}

#[test]
fn debug_flag_toggles() {
    let mut g = Grid::new(1, 0, 0, 300, 300);
    assert!(!g.debug_cells);
    g.debug(true);
    assert!(g.debug_cells);
    g.debug(false);
    assert!(!g.debug_cells);
}

#[test]
fn default_fill_takes_parent_bounds() {
    let parent = Rect { x: 3, y: 4, w: 500, h: 300 };
    let g = Grid::default_fill(9, &parent);
    assert_eq!((g.id, g.x, g.y, g.w, g.h), (9, 3, 4, 500, 300));
    assert_eq!((g.rows, g.cols), (0, 0));
}

#[test]
fn default_grid_is_empty_and_unconfigured() {
    let g = Grid::default();
    assert_eq!((g.id, g.x, g.y, g.w, g.h), (0, 0, 0, 0, 0));
    assert_eq!((g.rows, g.cols), (0, 0));
    assert!(g.placements.is_empty());
}

#[test]
fn negative_origin_offsets_cells() {
    let mut g = Grid::new(1, -100, -50, 300, 300);
    assert!(g.set_layout(3, 3));
    let rc = g.find_cell(1, 2).unwrap();
    assert_eq!(rc, Rect { x: -100 + 200, y: -50 + 100, w: 100, h: 100 });
}

#[test]
fn span_may_run_past_the_grid_edge() {
    // the anchor must be in range; the spanned size is taken as given
    let mut g = Grid::new(1, 0, 0, 300, 300);
    assert!(g.set_layout(3, 3));
    let mut w = widget(91);
    assert!(g.insert_ext(&mut w, 2, 2, 4, 1));
    assert_eq!(w.rect, Rect { x: 200, y: 200, w: 400, h: 100 });
}
