use turtle_raster::canvas::Canvas;
use turtle_raster::transform;

fn marked_cells(c: &Canvas) -> Vec<(usize, usize)> {
    let mut out = Vec::new();
    for i in 0..c.size_x() {
        for j in 0..c.size_y() {
            if c.is_marked(i, j) {
                out.push((i, j));
            }
        }
    }
    out
}

#[test]
fn new_canvas_is_blank() {
    let c = Canvas::new(25, 55);
    assert_eq!(c.size_x(), 25);
    assert_eq!(c.size_y(), 55);
    assert_eq!(marked_cells(&c), vec![]);
}

#[test]
fn horizontal_line_scenario() {
    let mut c = Canvas::new(25, 55);
    c.draw_line(0, 0, 5, 0);
    assert_eq!(
        marked_cells(&c),
        vec![(12, 27), (13, 27), (14, 27), (15, 27), (16, 27), (17, 27)]
    );
}

#[test]
fn diagonal_line_scenario() {
    let mut c = Canvas::new(25, 55);
    c.draw_line(0, 0, 3, 3);
    assert_eq!(marked_cells(&c), vec![(12, 27), (13, 28), (14, 29), (15, 30)]);
}

#[test]
fn steep_line_scenario() {
    let mut c = Canvas::new(25, 55);
    c.draw_line(0, 0, 1, 5);
    // Six cells for six minor-axis steps, with exactly one step of the major
    // coordinate: a monotonic staircase, not a naive per-cell rounding.
    let cells = marked_cells(&c);
    assert_eq!(
        cells,
        vec![(12, 27), (12, 28), (12, 29), (13, 30), (13, 31), (13, 32)]
    );
    let steps = cells.windows(2).filter(|w| w[1].0 != w[0].0).count();
    assert_eq!(steps, 1);
}

#[test]
fn line_symmetry_examples() {
    let segments = [
        (0, 0, 5, 0),
        (0, 0, 3, 3),
        (0, 0, 1, 5),
        (-4, -2, 7, 3),
        (7, 3, -9, -11),
        (2, 10, 2, -10),
        (1, 1, 1, 1),
    ];
    for &(x1, y1, x2, y2) in &segments {
        let mut a = Canvas::new(25, 55);
        let mut b = Canvas::new(25, 55);
        a.draw_line(x1, y1, x2, y2);
        b.draw_line(x2, y2, x1, y1);
        assert_eq!(a.render(), b.render());
    }
}

#[test]
fn out_of_range_plots_are_dropped() {
    let mut c = Canvas::new(25, 55);
    c.plot(10000, 10000);
    c.plot(-10000, -10000);
    c.plot(i32::MAX, i32::MIN);
    c.plot(0, 10000);
    c.draw_line(9000, 9000, 10050, 10050);
    assert_eq!(marked_cells(&c), vec![]);
}

#[test]
fn partially_clipped_line() {
    let mut c = Canvas::new(25, 55);
    // Runs along the whole first axis; only the cells inside stay.
    c.draw_line(-30, 0, 30, 0);
    let expected: Vec<(usize, usize)> = (0..25).map(|i| (i, 27)).collect();
    assert_eq!(marked_cells(&c), expected);
}

#[test]
fn render_reverses_rows() {
    let mut c = Canvas::new(2, 3);
    // Centre offset is (1, 1); this lands in storage row 0, which must be
    // printed last.
    c.plot(-1, -1);
    let text = String::from_utf8(c.render()).unwrap();
    assert_eq!(text, "...\n@..\n");
}

#[test]
fn render_marks_cells() {
    let mut c = Canvas::new(2, 3);
    c.plot(0, 0);
    let text = String::from_utf8(c.render()).unwrap();
    assert_eq!(text, ".@.\n...\n");
}

#[test]
fn transform_packs_digit_pair_sums() {
    assert_eq!(transform(1234), 307);
    assert_eq!(transform(9100), 10);
    assert_eq!(transform(4321), 307);
    assert_eq!(transform(99), 18);
    assert_eq!(transform(0), 0);
}

#[test]
fn transform_mirrors_negatives() {
    assert_eq!(transform(-1234), -703);
    assert_eq!(transform(-99), -1800);
    assert_eq!(transform(i32::MAX), 2148589);
    assert_eq!(transform(i32::MIN), -214748912);
}
