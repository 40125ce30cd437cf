use turtle_raster::canvas::Canvas;

struct Turtle {
    dir: (f32, f32),
    pos: (f32, f32),
    pen_up: bool,
    canvas: Canvas,
}

impl Turtle {
    fn new() -> Turtle {
        Turtle {
            dir: (0.0, 1.0),
            pos: (0.0, 0.0),
            pen_up: false,
            canvas: Canvas::new(25, 55),
        }
    }

    fn forward(&mut self, distance: f32) {
        let (x, y) = self.pos;
        let (dx, dy) = (self.dir.0 * distance, self.dir.1 * distance);
        if !self.pen_up {
            // The canvas's first axis is the vertical one, so the
            // coordinates go in swapped.  Rounding is to the nearest
            // integer, ties away from zero.
            self.canvas.draw_line(
                y.round() as i32,
                x.round() as i32,
                (y + dy).round() as i32,
                (x + dx).round() as i32,
            );
        }
        self.pos = (x + dx, y + dy);
    }

    fn backward(&mut self, distance: f32) {
        self.forward(-distance);
    }

    fn left(&mut self, angle_degrees: f32) {
        let r = angle_degrees * std::f32::consts::PI / 180.0;
        let (a, b) = self.dir;
        let (c, d) = (r.cos(), r.sin());
        self.dir = (a * c - b * d, a * d + b * c);
    }

    fn right(&mut self, angle_degrees: f32) {
        self.left(-angle_degrees);
    }
}

#[test]
fn full_program_scenario() {
    let mut t = Turtle::new();
    for _ in 0..2 {
        t.forward(3.0);
        t.left(90.0);
        t.backward(10.0);
        t.left(90.0);
    }
    t.pen_up = true;
    t.backward(10.0);
    t.right(90.0);
    t.forward(8.0);
    t.left(90.0);
    t.pen_up = false;
    for _ in 0..2 {
        t.forward(16.0);
        t.right(90.0);
        t.forward(8.0);
        t.right(90.0);
    }
    let text = String::from_utf8(t.canvas.render()).unwrap();
    let expected = "\
.......................................................
.......................................................
.......................................................
.......................................................
.......................................................
.......................................................
...................................@@@@@@@@@...........
...................................@.......@...........
...................................@.......@...........
...........................@@@@@@@@@@@.....@...........
...........................@.......@.@.....@...........
...........................@.......@.@.....@...........
...........................@@@@@@@@@@@.....@...........
...................................@.......@...........
...................................@.......@...........
...................................@.......@...........
...................................@.......@...........
...................................@.......@...........
...................................@.......@...........
...................................@.......@...........
...................................@.......@...........
...................................@.......@...........
...................................@@@@@@@@@...........
.......................................................
.......................................................\n";
    assert_eq!(text, expected);
}
