use cgfs::canvas::{Canvas, BACKGROUND_COLOR};
use cgfs::color::Color;
use cgfs::ieee::INFINITY_BITS;
use cgfs::line::{draw_line, interpolate, Point};
use cgfs::raster::{edge_interpolate, fill_span, long_edge_on_left};

fn painted(canvas: &Canvas) -> Vec<(i32, i32, u32)> {
    let mut out = Vec::new();
    let w = canvas.width() as i32;
    let h = canvas.height() as i32;
    for y in -h / 2..h - h / 2 {
        for x in -w / 2..w - w / 2 {
            if let Some(p) = canvas.pixel(x, y) {
                if p != BACKGROUND_COLOR {
                    out.push((x, y, p));
                }
            }
        }
    }
    out
}

#[test]
fn color_add_saturates() {
    let c = Color(200, 10, 0).add(Color(100, 10, 255));
    assert_eq!(c, Color(255, 20, 255));
}

#[test]
fn color_clamped_limits_each_channel() {
    assert_eq!(Color::clamped(-5, 128, 300), Color(0, 128, 255));
    assert_eq!(Color::clamped(0, 255, 256), Color(0, 255, 255));
}

#[test]
fn color_scaling_through_clamped() {
    let base = Color::green();
    let k = 0.5f64;
    let c = Color::clamped(
        (base.0 as f64 * k) as i64,
        (base.1 as f64 * k) as i64,
        (base.2 as f64 * k) as i64,
    );
    assert_eq!(c, Color(0, 127, 0));
}

#[test]
fn color_packs_as_rgb_word() {
    assert_eq!(Color(0x12, 0x34, 0x56).to_u32(), 0x0012_3456);
    assert_eq!(Color::background().to_u32(), BACKGROUND_COLOR);
    assert_eq!(Color::red(), Color(255, 0, 0));
    assert_eq!(Color::purple(), Color(255, 0, 255));
}

#[test]
fn new_canvas_is_cleared() {
    let c = Canvas::new(4, 3);
    assert_eq!(c.width(), 4);
    assert_eq!(c.height(), 3);
    assert_eq!(c.buffer().len(), 12);
    assert!(c.buffer().iter().all(|&p| p == BACKGROUND_COLOR));
    assert_eq!(c.depth(0, 0), Some(INFINITY_BITS));
}

#[test]
fn put_pixel_maps_centered_coordinates() {
    let mut c = Canvas::new(4, 4);
    c.put_pixel(0, 0, Color::red());
    assert_eq!(c.buffer()[6], 0x00FF_0000);
    c.put_pixel(-2, 1, Color::blue());
    assert_eq!(c.buffer()[0], 0x0000_00FF);
    c.put_pixel(0, -2, Color::green());
    assert_eq!(c.buffer()[14], 0x0000_FF00);
    assert_eq!(c.pixel(0, 0), Some(0x00FF_0000));
}

#[test]
fn put_pixel_off_canvas_is_ignored() {
    let mut c = Canvas::new(4, 4);
    c.put_pixel(2, 0, Color::red());
    c.put_pixel(0, 2, Color::red());
    c.put_pixel(0, -3, Color::red());
    c.put_pixel(i32::MIN, i32::MAX, Color::red());
    assert!(c.buffer().iter().all(|&p| p == BACKGROUND_COLOR));
    assert_eq!(c.pixel(2, 0), None);
}

#[test]
fn depth_test_keeps_the_nearest() {
    let mut c = Canvas::new(4, 4);
    assert!(c.update_depth_buffer(0, 0, 0.5f64.to_bits()));
    assert!(!c.update_depth_buffer(0, 0, 0.7f64.to_bits()));
    assert!(!c.update_depth_buffer(0, 0, 0.5f64.to_bits()));
    assert!(c.update_depth_buffer(0, 0, 0.25f64.to_bits()));
    assert_eq!(c.depth(0, 0), Some(0.25f64.to_bits()));
    assert!(!c.update_depth_buffer(0, 0, f64::NAN.to_bits()));
    assert!(!c.update_depth_buffer(5, 5, 0.1f64.to_bits()));
    assert!(c.update_depth_buffer(1, 1, (-3.0f64).to_bits()));
}

#[test]
fn reset_clears_pixels_and_depths() {
    let mut c = Canvas::new(4, 4);
    c.put_pixel(0, 0, Color::red());
    c.update_depth_buffer(0, 0, 1.0f64.to_bits());
    c.reset();
    assert!(c.buffer().iter().all(|&p| p == BACKGROUND_COLOR));
    assert_eq!(c.depth(0, 0), Some(f64::INFINITY.to_bits()));
}

#[test]
fn interpolate_rounds_down_between_ends() {
    assert_eq!(interpolate(0, 0, 4, 2), vec![0, 0, 1, 1, 2]);
    assert_eq!(interpolate(0, 10, 4, 0), vec![10, 7, 5, 2, 0]);
    assert_eq!(interpolate(-2, 5, 1, 5), vec![5, 5, 5, 5]);
}

#[test]
fn interpolate_degenerate_runs() {
    assert_eq!(interpolate(3, 7, 3, 9), vec![7]);
    assert_eq!(interpolate(5, 1, 2, 1), Vec::<i32>::new());
}

#[test]
fn horizontal_line_writes_five_pixels() {
    let mut c = Canvas::new(10, 10);
    draw_line(&mut c, Point::new(0, 0), Point::new(4, 0), Color::red());
    let px = painted(&c);
    assert_eq!(px.len(), 5);
    for (k, &(x, y, p)) in px.iter().enumerate() {
        assert_eq!(x, k as i32);
        assert_eq!(y, 0);
        assert_eq!(p, 0x00FF_0000);
    }
}

#[test]
fn reversed_line_covers_the_same_pixels() {
    let mut a = Canvas::new(10, 10);
    let mut b = Canvas::new(10, 10);
    draw_line(&mut a, Point::new(-3, 2), Point::new(4, -1), Color::blue());
    draw_line(&mut b, Point::new(4, -1), Point::new(-3, 2), Color::blue());
    assert_eq!(a.buffer(), b.buffer());
    assert_eq!(painted(&a).len(), 8);
}

#[test]
fn steep_line_steps_along_y() {
    let mut c = Canvas::new(10, 10);
    draw_line(&mut c, Point::new(0, 0), Point::new(1, 3), Color::black());
    let mut px: Vec<(i32, i32)> = painted(&c).iter().map(|&(x, y, _)| (x, y)).collect();
    px.sort();
    assert_eq!(px, vec![(0, 0), (0, 1), (0, 2), (1, 3)]);
}

#[test]
fn single_point_line() {
    let mut c = Canvas::new(10, 10);
    draw_line(&mut c, Point::new(2, 2), Point::new(2, 2), Color::black());
    assert_eq!(painted(&c), vec![(2, 2, 0)]);
}

#[test]
fn line_leaving_the_canvas_is_clipped() {
    let mut c = Canvas::new(4, 4);
    draw_line(&mut c, Point::new(-10, 0), Point::new(10, 0), Color::red());
    assert_eq!(painted(&c).len(), 4);
}

#[test]
fn frame_after_reset_is_repeatable() {
    let mut a = Canvas::new(8, 8);
    let mut b = Canvas::new(8, 8);
    draw_line(&mut a, Point::new(-4, -4), Point::new(3, 3), Color::cyan());
    a.update_depth_buffer(1, 1, 0.5f64.to_bits());
    a.reset();
    b.reset();
    for canvas in [&mut a, &mut b] {
        draw_line(canvas, Point::new(-2, 3), Point::new(3, -1), Color::yellow());
    }
    assert_eq!(a.buffer(), b.buffer());
    assert_eq!(a.depth(1, 1), b.depth(1, 1));
}

#[test]
fn drawing_twice_changes_nothing() {
    let mut c = Canvas::new(8, 8);
    draw_line(&mut c, Point::new(-3, -2), Point::new(2, 3), Color::yellow());
    let once = c.buffer().clone();
    draw_line(&mut c, Point::new(-3, -2), Point::new(2, 3), Color::yellow());
    assert_eq!(c.buffer(), &once);
}

#[test]
fn span_fill_respects_depth() {
    let mut c = Canvas::new(8, 8);
    let half = 0.5f64.to_bits();
    fill_span(&mut c, 0, -2, 1, &vec![half; 4], &vec![Color::red(); 4]);
    assert_eq!(painted(&c).len(), 4);
    let zs = vec![0.7f64.to_bits(), 0.2f64.to_bits(), half, 0.1f64.to_bits()];
    fill_span(&mut c, 0, -2, 1, &zs, &vec![Color::blue(); 4]);
    let px = painted(&c);
    assert_eq!(
        px,
        vec![(-2, 0, 0x00FF_0000), (-1, 0, 0x0000_00FF), (0, 0, 0x00FF_0000), (1, 0, 0x0000_00FF)]
    );
    assert_eq!(c.depth(-1, 0), Some(0.2f64.to_bits()));
}

#[test]
fn span_fill_stops_at_shortest_input() {
    let mut c = Canvas::new(8, 8);
    let z = 1.0f64.to_bits();
    fill_span(&mut c, 1, 0, 3, &vec![z; 2], &vec![Color::green(); 4]);
    assert_eq!(painted(&c).len(), 2);
    fill_span(&mut c, 2, 3, 0, &vec![z; 4], &vec![Color::green(); 4]);
    assert_eq!(painted(&c).len(), 2);
    fill_span(&mut c, 2, 3, 3, &vec![z; 4], &vec![Color::green(); 4]);
    assert_eq!(painted(&c).len(), 3);
}

#[test]
fn triangle_edges_cover_every_row() {
    let (x02, x012) = edge_interpolate(0, 0, 2, 4, 4, 0);
    assert_eq!(x02, vec![0, 0, 0, 0, 0]);
    assert_eq!(x012, vec![0, 2, 4, 2, 0]);
    assert!(long_edge_on_left(&x02, &x012));
    assert!(!long_edge_on_left(&x012, &x02));
}

#[test]
fn flat_top_triangle_edges() {
    let (x02, x012) = edge_interpolate(0, 0, 0, 4, 2, 2);
    assert_eq!(x02, vec![0, 1, 2]);
    assert_eq!(x012, vec![4, 3, 2]);
    assert!(long_edge_on_left(&x02, &x012));
    let (a, b) = edge_interpolate(3, 1, 3, 1, 3, 1);
    assert_eq!((a, b), (vec![1], vec![1]));
}

#[test]
fn line_reaches_both_ends_without_gaps() {
    let mut c = Canvas::new(20, 20);
    draw_line(&mut c, Point::new(-6, 5), Point::new(3, -7), Color::red());
    let px: Vec<(i32, i32)> = painted(&c).iter().map(|&(x, y, _)| (x, y)).collect();
    assert_eq!(px.len(), 13);
    assert!(px.contains(&(-6, 5)));
    assert!(px.contains(&(3, -7)));
    for y in -7..=5 {
        let row: Vec<i32> = px.iter().filter(|p| p.1 == y).map(|p| p.0).collect();
        assert_eq!(row.len(), 1);
        if y > -7 {
            let below = px.iter().find(|p| p.1 == y - 1).unwrap().0;
            assert!((row[0] - below).abs() <= 1);
        }
    }
}
