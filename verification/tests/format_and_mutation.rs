use lisa::canvas::Canvas;
use lisa::color::Color;
use lisa::rando::{choose_index, rand, rand_adjust, rand_below, rand_color_adjust, randu8};
use lisa::shapes::{Circle, Rect, Shape, ShapeBehaviour, Triangle};
use lisa::shapelist::ShapeList;

#[test]
fn circle_canonical_tag() {
    let c = Circle { x: 500, y: 500, rad: 300, color: Color { r: 255, g: 0, b: 0, opacity: 1000 } };
    assert_eq!(c.to_string(), "<C0.500000,0.500000,0.300,rgba(255,0,0,1.0000)>");
}

#[test]
fn rect_canonical_tag() {
    let r = Rect {
        x: 250,
        y: 0,
        width: 1000,
        height: 75,
        color: Color { r: 1, g: 22, b: 133, opacity: 45 },
    };
    assert_eq!(
        r.to_string(),
        "<R0.250000,0.000000,1.000000,0.075000,rgba(1,22,133,0.0450)>"
    );
}

#[test]
fn triangle_canonical_tag() {
    let t = Triangle {
        x1: 0,
        y1: 1,
        x2: 10,
        y2: 100,
        x3: 999,
        y3: 1000,
        color: Color { r: 0, g: 0, b: 0, opacity: 0 },
    };
    assert_eq!(
        t.to_string(),
        "<T0.000000,0.001000,0.010000,0.100000,0.999000,1.000000,rgba(0,0,0,0.0000)>"
    );
}

#[test]
fn rgba_text() {
    let c = Color { r: 255, g: 0, b: 7, opacity: 1000 };
    assert_eq!(c.rgba(), "rgba(255,0,7,1.0000)");
    assert_eq!(c.svg(3), "rgba(255,0,7,1.0000)");
    assert_eq!(c.svg(1), "rgba(255,255,255,1.0000)");
}

#[test]
fn shape_svg_markup() {
    let c = Circle { x: 500, y: 250, rad: 100, color: Color { r: 9, g: 8, b: 7, opacity: 500 } };
    assert_eq!(
        c.svg(200, 100),
        "<circle cx='100' cy='25' r='20' fill='rgba(9,8,7,0.5000)' />"
    );
    let r = Rect {
        x: 100,
        y: 200,
        width: 300,
        height: 400,
        color: Color { r: 1, g: 2, b: 3, opacity: 0 },
    };
    assert_eq!(
        r.svg(100, 50),
        "<rect x='10' y='10' width='30' height='20' fill='rgba(1,2,3,0.0000)' />"
    );
    let t = Triangle {
        x1: 0,
        y1: 0,
        x2: 1000,
        y2: 0,
        x3: 500,
        y3: 1000,
        color: Color { r: 4, g: 5, b: 6, opacity: 250 },
    };
    assert_eq!(
        t.svg(10, 10),
        "<polygon points='0,0 10,0 5,10' fill='rgba(4,5,6,0.2500)' />"
    );
}

#[test]
fn list_svg_document() {
    let mut sl = ShapeList::new();
    sl.shapes.push(Shape::Circle(Circle {
        x: 500,
        y: 500,
        rad: 100,
        color: Color { r: 1, g: 2, b: 3, opacity: 1000 },
    }));
    let doc = sl.svg(10, 10);
    assert!(doc.starts_with(
        "<svg xmlns='http://www.w3.org/2000/svg' style='background-color: #000;'  width='10' height='10' >"
    ));
    assert!(doc.ends_with("</svg>"));
    assert!(doc.contains("<circle cx='5' cy='5' r='1' fill='rgba(1,2,3,1.0000)' />"));
}

#[test]
fn list_tag_concatenation() {
    let mut sl = ShapeList::new();
    let c = Circle { x: 0, y: 0, rad: 10, color: Color { r: 0, g: 0, b: 0, opacity: 0 } };
    sl.shapes.push(Shape::Circle(c));
    sl.shapes.push(Shape::Circle(c));
    let one = {
        let mut s = ShapeList::new();
        s.shapes.push(Shape::Circle(c));
        s.to_string()
    };
    assert_eq!(sl.to_string(), format!("{}{}", one, one));
}

#[test]
fn random_draw_ranges() {
    for _ in 0..200 {
        assert!(rand() < 1000);
        assert!(randu8() < 255);
        assert!(rand_below(7) < 7);
        let v = rand_adjust(500, 500, 0, 1000);
        assert!(v <= 1000);
        let w = rand_adjust(20, 500, 10, 1000);
        assert!((10..=1000).contains(&w));
        let c = rand_color_adjust(128, 500);
        assert!(c <= 255);
    }
}

#[test]
fn choose_index_ranges() {
    let empty: Vec<u32> = Vec::new();
    assert_eq!(choose_index(&empty), None);
    let five = vec![1u32, 2, 3, 4, 5];
    for _ in 0..50 {
        let i = choose_index(&five).unwrap();
        assert!(i < 5);
    }
}

#[test]
fn color_mutation_changes_one_attribute() {
    let c = Color { r: 10, g: 20, b: 30, opacity: 500 };
    for _ in 0..100 {
        let m = c.mutate();
        assert!(m.opacity <= 1000);
        let same = [m.r == c.r, m.g == c.g, m.b == c.b, m.opacity == c.opacity];
        let changed = same.iter().filter(|&&s| !s).count();
        assert!(changed <= 1);
    }
}

#[test]
fn shape_mutation_stays_on_grid() {
    let mut s = Shape::Rect(Rect {
        x: 500,
        y: 500,
        width: 500,
        height: 500,
        color: Color { r: 1, g: 2, b: 3, opacity: 500 },
    });
    for _ in 0..100 {
        s.mutate();
        match s {
            Shape::Rect(r) => {
                assert!(r.x <= 1000 && r.y <= 1000 && r.width <= 1000 && r.height <= 1000);
                assert!(r.color.opacity <= 1000);
            },
            _ => panic!("mutation changed the variant"),
        }
    }
}

#[test]
fn list_operations() {
    let mut sl = ShapeList::new();
    assert_eq!(sl.len(), 0);
    sl.remove_shape();
    assert_eq!(sl.len(), 0);
    sl.add_random();
    sl.add_random();
    sl.add_random();
    assert_eq!(sl.len(), 3);
    let pre = sl.clone_list();
    assert!(sl.eq_list(&pre));
    sl.mutate();
    assert_eq!(sl.len(), 3);
    sl.swap();
    assert_eq!(sl.len(), 3);
    sl.remove_shape();
    assert_eq!(sl.len(), 2);
    let mut single = ShapeList::new();
    single.add_random();
    single.remove_shape();
    assert_eq!(single.len(), 1);

    let prefix = pre.slice(2);
    assert_eq!(prefix.len(), 2);
    assert!(prefix.shapes[0] == pre.shapes[0] && prefix.shapes[1] == pre.shapes[1]);
}

#[test]
fn random_shapes_are_on_grid() {
    for _ in 0..100 {
        match Shape::random() {
            Shape::Circle(c) => {
                assert!(c.x <= 1000 && c.y <= 1000 && c.rad <= 1000 && c.color.opacity <= 1000)
            },
            Shape::Rect(r) => {
                assert!(
                    r.x <= 1000 && r.y <= 1000 && r.width <= 1000 && r.height <= 1000
                        && r.color.opacity <= 1000
                )
            },
            Shape::Triangle(t) => {
                assert!(
                    t.x1 <= 1000 && t.y1 <= 1000 && t.x2 <= 1000 && t.y2 <= 1000 && t.x3 <= 1000
                        && t.y3 <= 1000 && t.color.opacity <= 1000
                )
            },
        }
    }
}

#[test]
fn canvas_accessors() {
    let data: Vec<u8> = (0..36u8).collect();
    let c = Canvas::from(4, 3, 3, data.clone());
    assert_eq!(c.len(), 36);
    assert_eq!(c.get_pixels(), data);
    let p = c.pixel_at(1, 1);
    assert_eq!((p.r, p.g, p.b), (15, 16, 17));
    let outside = c.pixel_at(-1, 0);
    assert_eq!((outside.r, outside.g, outside.b, outside.opacity), (0, 0, 0, 1000));

    let mut w = Canvas::from(4, 3, 3, data);
    w.wipe();
    assert!(w.get_pixels().iter().all(|&v| v == 0));
}

#[test]
fn line_add_composites_a_clipped_run() {
    let mut c = Canvas::new(5, 3, 3);
    c.line_add(-10, 10, 1, &Color { r: 100, g: 0, b: 0, opacity: 1000 });
    let px = c.get_pixels();
    for x in 0..5usize {
        assert_eq!(px[(1 * 5 + x) * 3], 100);
    }
    for x in 0..5usize {
        assert_eq!(px[(0 * 5 + x) * 3], 0);
        assert_eq!(px[(2 * 5 + x) * 3], 0);
    }
    // a row outside the canvas is a no-op
    c.line_add(0, 4, 7, &Color { r: 9, g: 9, b: 9, opacity: 1000 });
    assert_eq!(c.get_pixels(), px);
}

// The fast midpoint rasterizer against the brute-force disc oracle.
// The fast walk starts one pixel inside the scaled radius and its
// discretization may differ from the strict disc test by a boundary
// ring, so the comparison accepts a two-pixel ring: well inside both
// paint, well outside neither does.
#[test]
fn circle_rasterizers_agree_within_a_boundary_ring() {
    let mut fast = Canvas::new(40, 40, 3);
    let mut slow = Canvas::new(40, 40, 3);
    let c = Circle { x: 500, y: 500, rad: 250, color: Color { r: 255, g: 0, b: 0, opacity: 1000 } };
    c.draw_onto(&mut fast);
    c.draw_onto_slow(&mut slow);
    let fp = fast.get_pixels();
    let sp = slow.get_pixels();
    // scaled radius 10 around the center pixel (20, 20)
    for py in 0..40i64 {
        for px in 0..40i64 {
            let dx = px - 20;
            let dy = py - 20;
            let d2 = dx * dx + dy * dy;
            let idx = ((py * 40 + px) * 3) as usize;
            if d2 < 8 * 8 {
                assert!(fp[idx] > 0, "fast missed interior pixel ({px},{py})");
                assert!(sp[idx] > 0, "slow missed interior pixel ({px},{py})");
            }
            if d2 > 12 * 12 {
                assert_eq!(fp[idx], 0, "fast painted exterior pixel ({px},{py})");
                assert_eq!(sp[idx], 0, "slow painted exterior pixel ({px},{py})");
            }
        }
    }
}

#[test]
fn add_to_vec_composites_three_channels() {
    let mut v: Vec<u8> = vec![100, 100, 100, 100];
    let c = Color { r: 200, g: 0, b: 100, opacity: 500 };
    c.add_to_vec(&mut v, 0);
    // each channel blends half of the old value with half of the new
    assert_eq!(v, vec![150, 50, 100, 100]);
}

#[test]
fn weighted_diff_exact() {
    let mut a = Canvas::new(2, 1, 3);
    let b = Canvas::new(2, 1, 3);
    let mut weights = Canvas::new(2, 1, 3);
    a.add_pixel(0, 0, &Color { r: 10, g: 0, b: 0, opacity: 1000 });
    weights.add_pixel(0, 0, &Color { r: 50, g: 0, b: 0, opacity: 1000 });
    // term for the red channel: 100 * (100 + 50 * 1) / 100 = 150
    assert_eq!(a.weighted_diff(&b, &weights, 1, 100), 150);
    // without weighting the scale keeps the plain squared difference
    assert_eq!(a.weighted_diff(&b, &weights, 0, 100), 100);
}

#[test]
fn neighbors_diffsq_exact() {
    let mut c = Canvas::new(3, 1, 3);
    c.add_pixel(0, 0, &Color { r: 10, g: 0, b: 0, opacity: 1000 });
    // neighbors of (1, 0) within radius 1 are (0, 0) and the center is
    // skipped; the window excludes x + radius itself
    assert_eq!(c.neighbors_diffsq(1, 0, 1), 100);
}
