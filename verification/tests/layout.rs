use ggo_launcher::layout::{split_2x2, split_2x2_with_center, GridCell, LayoutError, SignedRect};

fn assert_exact_partition(source: SignedRect, cells: &[GridCell; 4]) {
    assert_eq!(cells[0].rect.left, source.left);
    assert_eq!(cells[0].rect.top, source.top);
    assert_eq!(cells[1].rect.right, source.right);
    assert_eq!(cells[2].rect.left, source.left);
    assert_eq!(cells[2].rect.bottom, source.bottom);
    assert_eq!(cells[3].rect.right, source.right);
    assert_eq!(cells[3].rect.bottom, source.bottom);

    assert_eq!(cells[0].rect.right, cells[1].rect.left);
    assert_eq!(cells[2].rect.right, cells[3].rect.left);
    assert_eq!(cells[0].rect.bottom, cells[2].rect.top);
    assert_eq!(cells[1].rect.bottom, cells[3].rect.top);

    let source_area = i128::from(source.width()) * i128::from(source.height());
    let cells_area: i128 = cells
        .iter()
        .map(|cell| i128::from(cell.rect.width()) * i128::from(cell.rect.height()))
        .sum();
    assert_eq!(cells_area, source_area);
    assert!(cells
        .iter()
        .all(|cell| cell.rect.width() > 0 && cell.rect.height() > 0));
}

#[test]
fn preserves_negative_monitor_coordinates() {
    let source = SignedRect { left: -1920, top: 0, right: 0, bottom: 1040 };
    let cells = split_2x2(source).unwrap();

    assert_eq!(cells[0].rect.left, -1920);
    assert_eq!(cells[1].rect.right, 0);
    assert_exact_partition(source, &cells);
}

#[test]
fn assigns_odd_remainders_to_right_and_bottom() {
    let source = SignedRect { left: 10, top: 20, right: 15, bottom: 23 };
    let cells = split_2x2(source).unwrap();

    assert_eq!(cells[0].rect.width(), 2);
    assert_eq!(cells[1].rect.width(), 3);
    assert_eq!(cells[0].rect.height(), 1);
    assert_eq!(cells[2].rect.height(), 2);
    assert_exact_partition(source, &cells);
}

#[test]
fn handles_negative_origin_and_odd_size_together() {
    let source = SignedRect { left: -101, top: -51, right: -90, bottom: -40 };
    let cells = split_2x2(source).unwrap();

    assert_eq!(cells[0].rect.width(), 5);
    assert_eq!(cells[1].rect.width(), 6);
    assert_eq!(cells[0].rect.height(), 5);
    assert_eq!(cells[2].rect.height(), 6);
    assert_exact_partition(source, &cells);
}

#[test]
fn uses_i64_for_extreme_signed_coordinates() {
    let source = SignedRect { left: i32::MIN, top: i32::MIN, right: i32::MAX, bottom: i32::MAX };
    let cells = split_2x2(source).unwrap();

    assert_eq!(source.width(), 4_294_967_295);
    assert_eq!(source.height(), 4_294_967_295);
    assert_exact_partition(source, &cells);
}

#[test]
fn rejects_zero_or_negative_width_without_panicking() {
    for source in [
        SignedRect { left: 10, top: 0, right: 10, bottom: 10 },
        SignedRect { left: 11, top: 0, right: 10, bottom: 10 },
    ] {
        assert!(matches!(split_2x2(source), Err(LayoutError::NonPositiveWidth { .. })));
    }
}

#[test]
fn rejects_zero_or_negative_height_without_panicking() {
    for source in [
        SignedRect { left: 0, top: 10, right: 10, bottom: 10 },
        SignedRect { left: 0, top: 11, right: 10, bottom: 10 },
    ] {
        assert!(matches!(split_2x2(source), Err(LayoutError::NonPositiveHeight { .. })));
    }
}

#[test]
fn center_preset_preserves_negative_coordinates_and_base_grid() {
    let source = SignedRect { left: -1920, top: 0, right: 0, bottom: 1040 };
    let base = split_2x2(source).unwrap();
    let cells = split_2x2_with_center(source).unwrap();

    assert_eq!(&cells[..4], &base);
    assert_eq!(
        cells[4],
        GridCell {
            slot: "center",
            rect: SignedRect { left: -1440, top: 260, right: -480, bottom: 780 },
        }
    );
}

#[test]
fn center_preset_keeps_odd_sized_center_inside_work_area() {
    let source = SignedRect { left: -101, top: -51, right: -90, bottom: -40 };
    let cells = split_2x2_with_center(source).unwrap();
    let center = cells[4].rect;

    assert_eq!(center.width(), source.width() / 2);
    assert_eq!(center.height(), source.height() / 2);
    assert!(center.left >= source.left && center.right <= source.right);
    assert!(center.top >= source.top && center.bottom <= source.bottom);
}

#[test]
fn grid_slots_are_named_in_grid_order() {
    let cells = split_2x2(SignedRect { left: 0, top: 0, right: 4, bottom: 4 }).unwrap();
    let slots: Vec<&str> = cells.iter().map(|c| c.slot).collect();
    assert_eq!(slots, vec!["r0c0", "r0c1", "r1c0", "r1c1"]);
}

#[test]
fn single_pixel_area_splits_into_empty_and_unit_cells() {
    let source = SignedRect { left: 0, top: 0, right: 1, bottom: 1 };
    let cells = split_2x2(source).unwrap();
    assert_eq!(cells[0].rect.width(), 0);
    assert_eq!(cells[3].rect.width(), 1);
    assert_eq!(cells[3].rect.height(), 1);
}

#[test]
fn layout_error_messages_name_the_edges() {
    let e = split_2x2(SignedRect { left: 10, top: 0, right: 10, bottom: 10 }).unwrap_err();
    assert!(e.message().contains("10"));
}
