use lisa::canvas::Canvas;
use lisa::canvascache::CanvasCache;
use lisa::color::Color;
use lisa::shapes::{Circle, Rect, Shape, ShapeBehaviour, Triangle};
use lisa::shapelist::ShapeList;

fn circle_at(x: u16, y: u16, rad: u16, r: u8, g: u8, b: u8, opacity: u16) -> Shape {
    Shape::Circle(Circle { x, y, rad, color: Color { r, g, b, opacity } })
}

fn sample_list() -> ShapeList {
    let mut sl = ShapeList::new();
    sl.shapes.push(circle_at(500, 500, 300, 255, 0, 0, 1000));
    sl.shapes.push(Shape::Rect(Rect {
        x: 100,
        y: 100,
        width: 500,
        height: 400,
        color: Color { r: 0, g: 255, b: 0, opacity: 500 },
    }));
    sl.shapes.push(Shape::Triangle(Triangle {
        x1: 0,
        y1: 0,
        x2: 900,
        y2: 100,
        x3: 400,
        y3: 800,
        color: Color { r: 0, g: 0, b: 255, opacity: 700 },
    }));
    sl
}

// Render-equivalence: a cached lookup is pixel-identical to rendering
// the list directly onto a fresh blank canvas, cold or warm.
#[test]
fn render_equivalence() {
    let sl = sample_list();
    let mut direct = Canvas::new(20, 15, 3);
    sl.draw_onto(&mut direct);

    let mut cc = CanvasCache::new(20, 15, 3);
    let cold = cc.canvas_for(&sl);
    assert_eq!(cold.get_pixels(), direct.get_pixels());

    cc.insert(&sl);
    let warm = cc.canvas_for(&sl);
    assert_eq!(warm.get_pixels(), direct.get_pixels());
}

// Idempotence: two successive lookups of the same list yield identical
// buffers.
#[test]
fn idempotence() {
    let sl = sample_list();
    let mut cc = CanvasCache::new(12, 12, 3);
    let a = cc.canvas_for(&sl);
    let b = cc.canvas_for(&sl);
    assert_eq!(a.get_pixels(), b.get_pixels());
}

// Prefix reuse: after inserting a list of length three, every nonempty
// prefix lookup is a cache hit and matches a direct render.
#[test]
fn prefix_reuse() {
    let sl = sample_list();
    let mut cc = CanvasCache::new(16, 16, 3);
    cc.insert(&sl);
    for k in 1..=3usize {
        let pref = sl.slice(k);
        let hits_before = cc.hits();
        let got = cc.canvas_for(&pref);
        assert_eq!(cc.hits(), hits_before + 1);
        let mut direct = Canvas::new(16, 16, 3);
        pref.draw_onto(&mut direct);
        assert_eq!(got.get_pixels(), direct.get_pixels());
    }
    // the empty prefix is never cached: looking it up is a miss
    let misses_before = cc.misses();
    let _ = cc.canvas_for(&sl.slice(0));
    assert_eq!(cc.misses(), misses_before + 1);
}

// Associativity: rendering the prefix and then the suffix onto one
// canvas equals rendering the whole list directly, at every split.
#[test]
fn associativity() {
    let sl = sample_list();
    let mut whole = Canvas::new(17, 13, 3);
    sl.draw_onto(&mut whole);
    for k in 0..=3usize {
        let mut split = Canvas::new(17, 13, 3);
        sl.slice(k).draw_onto(&mut split);
        for i in k..3 {
            sl.draw_item_onto(i, &mut split);
        }
        assert_eq!(split.get_pixels(), whole.get_pixels());
    }
}

// Compositing boundary cases: opacity one replaces and is idempotent,
// opacity zero leaves the destination unchanged.
#[test]
fn compositing_boundaries() {
    let mut c = Canvas::new(4, 4, 3);
    let opaque = Color { r: 10, g: 20, b: 30, opacity: 1000 };
    c.add_pixel(1, 2, &opaque);
    let i = ((2 * 4 + 1) * 3) as usize;
    let px = c.get_pixels();
    assert_eq!(&px[i..i + 3], &[10, 20, 30]);
    c.add_pixel(1, 2, &opaque);
    assert_eq!(c.get_pixels(), px);

    let transparent = Color { r: 200, g: 200, b: 200, opacity: 0 };
    c.add_pixel(1, 2, &transparent);
    assert_eq!(c.get_pixels(), px);
}

// Distance metric properties: zero against itself, and symmetric.
#[test]
fn distance_metric() {
    let mut a = Canvas::new(6, 6, 3);
    let mut b = Canvas::new(6, 6, 3);
    a.add_pixel(2, 3, &Color { r: 120, g: 7, b: 9, opacity: 1000 });
    b.add_pixel(4, 1, &Color { r: 3, g: 250, b: 90, opacity: 800 });
    assert_eq!(a.diff(&a), 0);
    assert_eq!(b.diff(&b), 0);
    assert_eq!(a.diff(&b), b.diff(&a));
    assert!(a.diff(&b) > 0);
}

// LRU eviction: inserting capacity + 1 distinct single-shape lists
// evicts exactly the least-recently-touched one; all others remain
// retrievable as hits.
#[test]
fn lru_eviction() {
    let mut cc = CanvasCache::new(8, 8, 3);
    let mut lists: Vec<ShapeList> = Vec::new();
    for i in 0..=1000u16 {
        let mut sl = ShapeList::new();
        sl.shapes.push(circle_at(i, 500, 400, 200, 0, 0, 1000));
        lists.push(sl);
    }
    for sl in &lists {
        cc.insert(sl);
    }
    let _ = cc.canvas_for(&lists[0]);
    assert_eq!(cc.misses(), 1);
    assert_eq!(cc.hits(), 0);
    for sl in lists.iter().skip(1) {
        let _ = cc.canvas_for(sl);
    }
    assert_eq!(cc.misses(), 1);
    assert_eq!(cc.hits(), 1000);
}

// Scenario: a 10 by 10 by 3 blank canvas with an opaque red circle at
// the center of radius three tenths shows red at the center and leaves
// the corner untouched.
#[test]
fn center_circle_scenario() {
    let mut c = Canvas::new(10, 10, 3);
    let ci = Circle { x: 500, y: 500, rad: 300, color: Color { r: 255, g: 0, b: 0, opacity: 1000 } };
    ci.draw_onto(&mut c);
    let center = c.pixel_at(5, 5);
    assert!(center.r > 0);
    let px = c.get_pixels();
    assert_eq!(&px[0..3], &[0, 0, 0]);
}

// Scenario: three shapes rendered and inserted; mutating only the last
// shape leaves a lookup hitting at prefix length two, with two shapes
// served from the cache and one redrawn.
#[test]
fn tail_mutation_scenario() {
    let mut cc = CanvasCache::new(10, 10, 3);
    let mut sl = sample_list();
    cc.insert(&sl);
    sl.shapes[2] = circle_at(100, 100, 200, 9, 9, 9, 1000);
    let got = cc.canvas_for(&sl);
    assert_eq!(cc.requests(), 1);
    assert_eq!(cc.hits(), 1);
    assert_eq!(cc.misses(), 0);
    assert_eq!(cc.shapes_reused(), 2);
    let mut direct = Canvas::new(10, 10, 3);
    sl.draw_onto(&mut direct);
    assert_eq!(got.get_pixels(), direct.get_pixels());
}

// Scenario: an empty list renders to an all-zero canvas matching a
// fresh blank canvas.
#[test]
fn empty_list_scenario() {
    let mut cc = CanvasCache::new(9, 7, 3);
    let empty = ShapeList::new();
    let got = cc.canvas_for(&empty);
    let blank = Canvas::new(9, 7, 3);
    assert_eq!(got.get_pixels(), blank.get_pixels());
    assert!(got.get_pixels().iter().all(|&v| v == 0));
}
