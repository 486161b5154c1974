use ray_tracer::canvas::{Canvas, Rgb8};

fn color(r: f64, g: f64, b: f64) -> (f64, f64, f64) {
    (r, g, b)
}

fn black_bytes(width: usize, height: usize) -> Canvas<Rgb8> {
    Canvas::new(width, height, Rgb8 { r: 0, g: 0, b: 0 })
}

#[test]
fn create_canvas() {
    let c = Canvas::new(10, 20, color(0.0, 0.0, 0.0));
    assert_eq!(c.width(), 10);
    assert_eq!(c.height(), 20);
    for x in 0..10 {
        for y in 0..20 {
            assert_eq!(c.at(x, y), color(0.0, 0.0, 0.0));
        }
    }
}

#[test]
fn set_canvas_pixels() {
    let mut c = Canvas::new(10, 20, color(0.0, 0.0, 0.0));
    let red = color(1.0, 0.0, 0.0);
    c.set(2, 3, &red);
    assert_eq!(c.at(2, 3), red);
}

#[test]
fn set_pixel_leaves_the_others() {
    let mut c = Canvas::new(3, 2, 7_u32);
    c.set(1, 1, &9);
    for x in 0..3 {
        for y in 0..2 {
            let expected = if x == 1 && y == 1 { 9 } else { 7 };
            assert_eq!(c.at(x, y), expected);
        }
    }
}

#[test]
fn bounds_of_canvas() {
    let c = Canvas::new(4, 2, 0_u8);
    assert!(c.in_bounds(3, 1));
    assert!(!c.in_bounds(4, 0));
    assert!(!c.in_bounds(0, 2));
}

#[test]
fn construct_ppm_header() {
    let c = black_bytes(5, 3);
    let ppm = c.ppm();
    let lines: Vec<&str> = ppm.split("\n").collect();
    assert_eq!(lines[0], "P3");
    assert_eq!(lines[1], "5 3");
    assert_eq!(lines[2], "255");
}

#[test]
fn construct_ppm_pixel_data() {
    let mut c = black_bytes(5, 3);
    let red = Rgb8 { r: 255, g: 0, b: 0 };
    let green = Rgb8 { r: 0, g: 128, b: 0 };
    let blue = Rgb8 { r: 0, g: 0, b: 255 };

    c.set(0, 0, &red);
    c.set(2, 1, &green);
    c.set(4, 2, &blue);

    let ppm = c.ppm();
    let lines: Vec<&str> = ppm.split("\n").collect();
    assert_eq!(lines[3], "255 0 0 0 0 0 0 0 0 0 0 0 0 0 0");
    assert_eq!(lines[4], "0 0 0 0 0 0 0 128 0 0 0 0 0 0 0");
    assert_eq!(lines[5], "0 0 0 0 0 0 0 0 0 0 0 0 0 0 255");
}

#[test]
fn split_ppm_lines() {
    let color = Rgb8 { r: 255, g: 204, b: 153 };
    let mut c = Canvas::new(10, 2, color);
    for i in 0..10 {
        for j in 0..2 {
            c.set(i, j, &color);
        }
    }
    let ppm = c.ppm();
    let lines: Vec<&str> = ppm.split("\n").collect();
    assert_eq!(
        lines[3],
        "255 204 153 255 204 153 255 204 153 255 204 153 255 204 153 255 204"
    );
    assert_eq!(
        lines[4],
        "153 255 204 153 255 204 153 255 204 153 255 204 153"
    );
    assert_eq!(
        lines[5],
        "255 204 153 255 204 153 255 204 153 255 204 153 255 204 153 255 204"
    );
    assert_eq!(
        lines[6],
        "153 255 204 153 255 204 153 255 204 153 255 204 153"
    );
}

#[test]
fn ppm_ends_with_newline() {
    let c = black_bytes(5, 3);
    let ppm = c.ppm();
    assert_eq!(ppm.chars().last().unwrap(), '\n');
}

#[test]
fn ppm_lines_stay_short() {
    let c = Canvas::new(40, 3, Rgb8 { r: 100, g: 7, b: 255 });
    let ppm = c.ppm();
    for line in ppm.lines() {
        assert!(line.len() <= 70);
    }
    assert_eq!(ppm.lines().count(), 3 + 3 * 6);
}

#[test]
fn ppm_of_empty_canvas_is_header_only() {
    let c = black_bytes(0, 0);
    assert_eq!(c.ppm(), "P3\n0 0\n255\n");
}

#[test]
fn ppm_of_wide_canvas_header() {
    let c = black_bytes(1234, 1);
    let ppm = c.ppm();
    assert!(ppm.starts_with("P3\n1234 1\n255\n0 0 0 0"));
}
