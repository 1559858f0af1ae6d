use pypies::chart::{chart_elements, draw_order, scatterpie, Chart};
use pypies::error::LayoutError;
use pypies::extent::{extent, frame, pixel, radius_px, Extent};
use pypies::layout::layout;
use pypies::palette::{colors, Color};
use pypies::reshape::{reshape_long, reshape_wide, unpivot, LongRecord};
use pypies::slices::{slice_geometry, LabelText, Ratio, SliceConfig};
use pypies::table::{find_column, names_equal, numeric_column, Cell, Column, Table};

fn num_col(name: &str, vals: &[i64]) -> Column {
    Column { name: name.to_string(), cells: vals.iter().map(|v| Cell::Num(*v)).collect() }
}

fn two_point_table() -> Table {
    Table::new(
        vec![
            num_col("x", &[0, 10]),
            num_col("y", &[0, 0]),
            num_col("a", &[3, 1]),
            num_col("b", &[1, 3]),
        ],
        2,
    )
    .unwrap()
}

fn plain() -> SliceConfig {
    SliceConfig { donut: None, label_radius: None, label_show_ratio: true, label_threshold: 0 }
}

fn vars(names: &[&str]) -> Vec<String> {
    names.iter().map(|s| s.to_string()).collect()
}

fn chart_of(t: &Table, cfg: SliceConfig) -> Result<Chart, LayoutError> {
    scatterpie(t, "x", "y", &vars(&["a", "b"]), 100, false, false, cfg, 600)
}

#[test]
fn two_points_end_to_end() {
    let c = chart_of(&two_point_table(), plain()).unwrap();
    assert_eq!(c.pies.len(), 2);
    assert_eq!(c.frame.radius, 20000);
    assert_eq!(c.frame.x_start, -72000);
    assert_eq!(c.frame.x_end, 1072000);
    assert_eq!(c.frame.y_start, -22000);
    assert_eq!(c.frame.y_end, 22000);
    assert_eq!(c.frame.area_height, 23);
    assert_eq!((c.pies[0].cx, c.pies[0].cy), (37, 11));
    assert_eq!((c.pies[1].cx, c.pies[1].cy), (562, 11));
    assert_eq!(c.pies[0].values, vec![3, 1]);
    assert_eq!(c.radius, Ratio { num: 20000 * 600, den: 1144000 });
    let g0 = &c.geometry[0];
    assert_eq!(g0.turn, 4);
    assert_eq!((g0.slices[0].start, g0.slices[0].end), (0, 3));
    assert_eq!((g0.slices[1].start, g0.slices[1].end), (3, 4));
    let g1 = &c.geometry[1];
    assert_eq!(g1.slices[0].end - g1.slices[0].start, 1);
    assert_eq!(g1.slices[1].end - g1.slices[1].start, 3);
    assert_eq!(c.order, vec![0, 1]);
    assert_eq!(c.colors, vec![Color { r: 31, g: 119, b: 180 }, Color { r: 255, g: 127, b: 14 }]);
}

#[test]
fn spans_in_radians_match_shares() {
    let c = chart_of(&two_point_table(), plain()).unwrap();
    let g = &c.geometry[0];
    let tau = 2.0 * std::f64::consts::PI;
    let span = |s: usize| (g.slices[s].end - g.slices[s].start) as f64 / g.turn as f64 * tau;
    assert!((span(0) - 1.5 * std::f64::consts::PI).abs() < 1e-9);
    assert!((span(1) - 0.5 * std::f64::consts::PI).abs() < 1e-9);
    assert!((span(0) + span(1) - tau).abs() < 1e-9);
}

#[test]
fn empty_table_is_data_error() {
    let t = Table::new(vec![num_col("x", &[]), num_col("y", &[]), num_col("a", &[]), num_col("b", &[])], 0).unwrap();
    assert_eq!(chart_of(&t, plain()).unwrap_err(), LayoutError::DataError);
}

#[test]
fn threshold_hides_small_labels() {
    let cfg = SliceConfig { donut: None, label_radius: Some(700), label_show_ratio: true, label_threshold: 200 };
    let radius = Ratio { num: 10, den: 1 };
    let g = slice_geometry(&vec![15, 25, 60], radius, cfg).unwrap();
    assert_eq!(g.turn, 100);
    assert!(g.slices[0].label.is_none());
    let l = g.slices[1].label.unwrap();
    assert_eq!(l.text, LabelText::Share(Ratio { num: 25, den: 100 }));
    assert_eq!(l.angle, Ratio { num: 15 + 40, den: 200 });
    assert_eq!(l.distance, Ratio { num: 7000, den: 1000 });
    assert!(g.slices[2].label.is_some());
}

#[test]
fn labels_show_values_when_asked() {
    let cfg = SliceConfig { donut: None, label_radius: Some(500), label_show_ratio: false, label_threshold: 0 };
    let g = slice_geometry(&vec![2, 0, -4, 6], Ratio { num: 1, den: 1 }, cfg).unwrap();
    assert_eq!(g.turn, 8);
    assert_eq!(g.slices[0].label.unwrap().text, LabelText::Value(2));
    assert!(g.slices[1].label.is_none());
    assert!(g.slices[2].label.is_none());
    assert_eq!((g.slices[1].start, g.slices[1].end), (2, 2));
    assert_eq!((g.slices[2].start, g.slices[2].end), (2, 2));
    assert_eq!((g.slices[3].start, g.slices[3].end), (2, 8));
}

#[test]
fn zero_total_pie_is_degenerate() {
    let cfg = SliceConfig { donut: None, label_radius: Some(500), label_show_ratio: true, label_threshold: 0 };
    let g = slice_geometry(&vec![0, 0], Ratio { num: 1, den: 1 }, cfg).unwrap();
    assert_eq!(g.turn, 0);
    assert!(g.slices.iter().all(|s| s.start == 0 && s.end == 0 && s.label.is_none()));
}

#[test]
fn donut_hole_is_share_of_radius() {
    let cfg = SliceConfig { donut: Some(400), label_radius: None, label_show_ratio: true, label_threshold: 0 };
    let g = slice_geometry(&vec![1, 1], Ratio { num: 50, den: 3 }, cfg).unwrap();
    let inner = g.inner_radius.unwrap();
    assert_eq!(inner, Ratio { num: 20000, den: 3000 });
    assert!(inner.num * 3 < 50 * inner.den);
}

#[test]
fn ratios_outside_unit_interval_are_config_errors() {
    let r = Ratio { num: 1, den: 1 };
    let bad_donut = SliceConfig { donut: Some(1000), label_radius: None, label_show_ratio: true, label_threshold: 0 };
    let zero_label = SliceConfig { donut: None, label_radius: Some(0), label_show_ratio: true, label_threshold: 0 };
    assert_eq!(slice_geometry(&vec![1], r, bad_donut).unwrap_err(), LayoutError::ConfigError);
    assert_eq!(slice_geometry(&vec![1], r, zero_label).unwrap_err(), LayoutError::ConfigError);
    assert_eq!(chart_of(&two_point_table(), bad_donut).unwrap_err(), LayoutError::ConfigError);
}

#[test]
fn palette_uses_ten_then_twenty_colors() {
    let ten = colors(&(0..10).map(|i| i.to_string()).collect()).unwrap();
    assert_eq!(ten[9], Color { r: 0x17, g: 0xbe, b: 0xcf });
    let eleven = colors(&(0..11).map(|i| i.to_string()).collect()).unwrap();
    assert_eq!(eleven[1], Color { r: 0xae, g: 0xc7, b: 0xe8 });
    let many = colors(&(0..25).map(|i| i.to_string()).collect()).unwrap();
    assert_eq!(many[20], many[0]);
    assert_eq!(many[24], many[4]);
    assert_ne!(many[19], many[0]);
}

#[test]
fn palette_is_deterministic_and_cycles_at_ten() {
    let names: Vec<String> = vars(&["p", "q", "r", "s"]);
    assert_eq!(colors(&names).unwrap(), colors(&names).unwrap());
    let pad: Vec<String> = (0..10).map(|i| i.to_string()).collect();
    let c = colors(&pad).unwrap();
    assert_eq!(c[0], Color { r: 31, g: 119, b: 180 });
    assert_eq!(c[1], Color { r: 255, g: 127, b: 14 });
}

#[test]
fn no_categories_is_config_error() {
    assert_eq!(colors(&vec![]).unwrap_err(), LayoutError::ConfigError);
    let r = scatterpie(&two_point_table(), "x", "y", &vec![], 100, false, false, plain(), 600);
    assert_eq!(r.unwrap_err(), LayoutError::ConfigError);
}

#[test]
fn missing_column_is_schema_error() {
    let t = two_point_table();
    assert_eq!(find_column(&t, "z").unwrap_err(), LayoutError::SchemaError);
    assert_eq!(find_column(&t, "a").unwrap(), 2);
    let r = scatterpie(&t, "x", "y", &vars(&["a", "c"]), 100, false, false, plain(), 600);
    assert_eq!(r.unwrap_err(), LayoutError::SchemaError);
}

#[test]
fn text_cell_is_type_error() {
    let col = Column { name: "a".to_string(), cells: vec![Cell::Num(1), Cell::Text("n/a".to_string())] };
    assert_eq!(numeric_column(&col).unwrap_err(), LayoutError::TypeError);
    let t = Table::new(vec![num_col("x", &[0, 10]), num_col("y", &[0, 0]), col], 2).unwrap();
    let r = scatterpie(&t, "x", "y", &vars(&["a"]), 100, false, false, plain(), 600);
    assert_eq!(r.unwrap_err(), LayoutError::TypeError);
}

#[test]
fn ragged_table_is_refused() {
    let r = Table::new(vec![num_col("x", &[0, 1]), num_col("y", &[0])], 2);
    assert_eq!(r.unwrap_err(), LayoutError::DataError);
}

#[test]
fn names_compare_by_characters() {
    assert!(names_equal("Sepal.Width", "Sepal.Width"));
    assert!(!names_equal("Sepal.Width", "Sepal.Length"));
    assert!(!names_equal("a", "ab"));
}

#[test]
fn reshape_gives_one_record_per_row_and_category() {
    let t = Table::new(
        vec![num_col("x", &[1, 2, 3]), num_col("y", &[4, 5, 6]), num_col("a", &[7, 8, 9]), num_col("b", &[10, 11, 12])],
        3,
    )
    .unwrap();
    let recs = reshape_wide(&t, "x", "y", &vars(&["b", "a"])).unwrap();
    assert_eq!(recs.len(), 6);
    assert_eq!(recs[0], LongRecord { group: 0, x: 1, y: 4, category: 0, value: 10 });
    assert_eq!(recs[1], LongRecord { group: 0, x: 1, y: 4, category: 1, value: 7 });
    assert_eq!(recs[5], LongRecord { group: 2, x: 3, y: 6, category: 1, value: 9 });
    for r in &recs {
        assert_eq!(r.x, [1, 2, 3][r.group]);
        assert_eq!(r.y, [4, 5, 6][r.group]);
    }
}

#[test]
fn unpivot_orders_rows_then_categories() {
    let recs = unpivot(&vec![5], &vec![6], &vec![vec![1], vec![2], vec![3]]);
    assert_eq!(recs.iter().map(|r| (r.category, r.value)).collect::<Vec<_>>(), vec![(0, 1), (1, 2), (2, 3)]);
}

#[test]
fn extent_finds_bounds() {
    let recs = unpivot(&vec![3, -1, 7], &vec![2, 9, -4], &vec![vec![1, 1, 1]]);
    let e = extent(&recs).unwrap();
    assert_eq!(e, Extent { x_min: -1, x_max: 7, y_min: -4, y_max: 9 });
    assert_eq!(extent(&vec![]).unwrap_err(), LayoutError::DataError);
}

#[test]
fn frame_spans_canvas_width() {
    let e = Extent { x_min: 0, x_max: 10, y_min: 0, y_max: 0 };
    let f = frame(e, 100, 600).unwrap();
    assert_eq!((f.x_end - f.x_start) * 600 / (f.x_end - f.x_start), 600);
    assert_eq!(pixel(&f, 10, true), 562);
    let r = radius_px(&f);
    assert!(r.num > 0);
    assert_eq!(r.den as i128, f.x_end - f.x_start);
    let f2 = frame(e, 200, 600).unwrap();
    assert_eq!(f2.radius, 40000);
}

#[test]
fn single_x_is_config_error() {
    let e = Extent { x_min: 4, x_max: 4, y_min: 0, y_max: 9 };
    assert_eq!(frame(e, 100, 600).unwrap_err(), LayoutError::ConfigError);
    let recs = unpivot(&vec![4, 4], &vec![0, 9], &vec![vec![1, 2]]);
    assert_eq!(chart_elements(&recs, 1, 100, 600).unwrap_err(), LayoutError::ConfigError);
}

#[test]
fn inconsistent_group_is_data_error() {
    let mut recs = unpivot(&vec![0, 10], &vec![0, 0], &vec![vec![1, 2], vec![3, 4]]);
    recs[1].x = 5;
    assert_eq!(chart_elements(&recs, 2, 100, 600).unwrap_err(), LayoutError::DataError);
    let recs = unpivot(&vec![0, 10], &vec![0, 0], &vec![vec![1, 2], vec![3, 4]]);
    let f = frame(extent(&recs).unwrap(), 100, 600).unwrap();
    assert_eq!(layout(&recs[..3].to_vec(), 2, &f).unwrap_err(), LayoutError::DataError);
    assert_eq!(layout(&recs, 2, &f).unwrap().len(), 2);
}

#[test]
fn largest_pies_are_drawn_first() {
    let t = Table::new(
        vec![num_col("x", &[0, 5, 10]), num_col("y", &[0, 0, 0]), num_col("a", &[1, 5, 1]), num_col("b", &[1, 5, 1])],
        3,
    )
    .unwrap();
    let c = scatterpie(&t, "x", "y", &vars(&["a", "b"]), 100, true, false, plain(), 600).unwrap();
    assert_eq!(c.order, vec![1, 0, 2]);
    assert_eq!(draw_order(&c.pies, false), vec![0, 1, 2]);
}

fn text_col(name: &str, vals: &[&str]) -> Column {
    Column { name: name.to_string(), cells: vals.iter().map(|v| Cell::Text(v.to_string())).collect() }
}

#[test]
fn long_table_gives_same_pies_as_wide() {
    let t = Table::new(
        vec![
            num_col("ID", &[0, 1, 0, 1]),
            num_col("x", &[0, 10, 0, 10]),
            num_col("y", &[0, 0, 0, 0]),
            text_col("variable", &["a", "a", "b", "b"]),
            num_col("value", &[3, 1, 1, 3]),
        ],
        4,
    )
    .unwrap();
    let long = scatterpie(&t, "x", "y", &vars(&["a", "b"]), 100, false, true, plain(), 600).unwrap();
    let wide = chart_of(&two_point_table(), plain()).unwrap();
    assert_eq!(long.pies.len(), 2);
    assert_eq!((long.pies[1].cx, long.pies[1].cy), (wide.pies[1].cx, wide.pies[1].cy));
    assert_eq!(long.pies[0].values, vec![3, 1]);
    assert_eq!(long.pies[1].values, vec![1, 3]);
}

#[test]
fn long_table_with_unknown_category_is_data_error() {
    let t = Table::new(
        vec![
            num_col("ID", &[0, 0]),
            num_col("x", &[0, 0]),
            num_col("y", &[0, 0]),
            text_col("variable", &["a", "c"]),
            num_col("value", &[3, 1]),
        ],
        2,
    )
    .unwrap();
    let r = scatterpie(&t, "x", "y", &vars(&["a", "b"]), 100, false, true, plain(), 600);
    assert_eq!(r.unwrap_err(), LayoutError::DataError);
    let recs = reshape_long(&t, "x", "y", "ID", "variable", "value", &vars(&["c", "a"])).unwrap();
    assert_eq!(recs[0], LongRecord { group: 0, x: 0, y: 0, category: 1, value: 3 });
    assert_eq!(recs[1].category, 0);
}

#[test]
fn interleaved_records_group_by_id() {
    let recs = vec![
        LongRecord { group: 0, x: 0, y: 0, category: 0, value: 3 },
        LongRecord { group: 1, x: 10, y: 0, category: 0, value: 1 },
        LongRecord { group: 0, x: 0, y: 0, category: 1, value: 1 },
        LongRecord { group: 1, x: 10, y: 0, category: 1, value: 3 },
    ];
    let (f, pies) = chart_elements(&recs, 2, 100, 600).unwrap();
    assert_eq!(f.area_height, 23);
    assert_eq!(pies.len(), 2);
    assert_eq!((pies[0].cx, pies[0].cy, pies[0].values.clone()), (37, 11, vec![3, 1]));
    assert_eq!((pies[1].cx, pies[1].cy, pies[1].values.clone()), (562, 11, vec![1, 3]));
}

#[test]
fn groups_follow_first_appearance_and_category_places() {
    let recs = vec![
        LongRecord { group: 7, x: 10, y: 0, category: 1, value: 5 },
        LongRecord { group: 2, x: 0, y: 0, category: 0, value: 4 },
        LongRecord { group: 7, x: 10, y: 0, category: 0, value: 6 },
        LongRecord { group: 2, x: 0, y: 0, category: 1, value: 2 },
    ];
    let (_, pies) = chart_elements(&recs, 2, 100, 600).unwrap();
    assert_eq!(pies[0].values, vec![6, 5]);
    assert_eq!(pies[0].cx, 562);
    assert_eq!(pies[1].values, vec![4, 2]);
}

#[test]
fn repeated_or_unknown_category_is_data_error() {
    let dup = vec![
        LongRecord { group: 0, x: 0, y: 0, category: 0, value: 1 },
        LongRecord { group: 0, x: 0, y: 0, category: 0, value: 2 },
        LongRecord { group: 1, x: 10, y: 0, category: 1, value: 1 },
        LongRecord { group: 1, x: 10, y: 0, category: 0, value: 1 },
    ];
    assert_eq!(chart_elements(&dup, 2, 100, 600).unwrap_err(), LayoutError::DataError);
    let beyond = vec![
        LongRecord { group: 0, x: 0, y: 0, category: 2, value: 1 },
        LongRecord { group: 1, x: 10, y: 0, category: 0, value: 1 },
    ];
    assert_eq!(chart_elements(&beyond, 1, 100, 600).unwrap_err(), LayoutError::DataError);
}

#[test]
fn negative_values_lower_a_pie_in_draw_order() {
    let t = Table::new(
        vec![num_col("x", &[0, 5, 10]), num_col("y", &[0, 0, 0]), num_col("a", &[4, 6, 1]), num_col("b", &[0, -5, 1])],
        3,
    )
    .unwrap();
    let c = scatterpie(&t, "x", "y", &vars(&["a", "b"]), 100, true, false, plain(), 600).unwrap();
    assert_eq!(c.order, vec![0, 2, 1]);
}

#[test]
fn negative_group_id_is_data_error() {
    let t = Table::new(
        vec![
            num_col("ID", &[-1]),
            num_col("x", &[0]),
            num_col("y", &[0]),
            text_col("variable", &["a"]),
            num_col("value", &[1]),
        ],
        1,
    )
    .unwrap();
    let r = reshape_long(&t, "x", "y", "ID", "variable", "value", &vars(&["a"]));
    assert_eq!(r.unwrap_err(), LayoutError::DataError);
}

#[test]
fn threshold_through_full_layout() {
    let t = Table::new(
        vec![
            num_col("x", &[0, 10]),
            num_col("y", &[0, 0]),
            num_col("a", &[15, 1]),
            num_col("b", &[25, 1]),
            num_col("c", &[60, 1]),
        ],
        2,
    )
    .unwrap();
    let cfg = SliceConfig { donut: None, label_radius: Some(500), label_show_ratio: true, label_threshold: 200 };
    let c = scatterpie(&t, "x", "y", &vars(&["a", "b", "c"]), 100, false, false, cfg, 600).unwrap();
    let g = &c.geometry[0];
    assert!(g.slices[0].label.is_none());
    assert_eq!(g.slices[1].label.unwrap().text, LabelText::Share(Ratio { num: 25, den: 100 }));
    assert_eq!(g.slices[2].label.unwrap().text, LabelText::Share(Ratio { num: 60, den: 100 }));
    assert!(c.geometry[1].slices.iter().all(|s| s.label.is_some()));
}
