use lisa::canvas::Canvas;
use lisa::color::{color_add, Color};
use lisa::shapes::{Circle, ShapeBehaviour};

#[test]
fn create() {
    let c = Canvas::new(10, 10, 3);
    assert_eq!(c.len(), 300);
}

#[test]
fn diff() {
    let mut c = Canvas::new(10, 10, 3);
    let c2 = Canvas::new(10, 10, 3);
    c.add_pixel(0, 0, &Color { r: 255, g: 0, b: 0, opacity: 1000 });
    assert_eq!(c2.diff(&c), 255 * 255);
    assert_eq!(c.diff(&c2), 255 * 255);
}

#[test]
fn test_color_add() {
    let c = color_add(255, 255, 1000);
    assert_eq!(c, 255);
}

#[test]
fn draw_shapes() {
    let mut c = Canvas::new(200, 200, 3);
    let mut c2 = Canvas::new(200, 200, 3);
    let s = Circle {
        x: 500,
        y: 500,
        rad: 500,
        color: Color { r: 100, g: 200, b: 250, opacity: 1000 },
    };
    s.draw_onto(&mut c);
    s.draw_onto_slow(&mut c2);
}
