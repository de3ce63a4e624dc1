use cgfs::controls::{frame_commands, keep_running, Command, Input};
use cgfs::ieee::{less_or_equal, less_than, nan, INFINITY_BITS};
use cgfs::line::Point;
use cgfs::mesh::{clip_model, sort_by_y, sphere_triangles};
use cgfs::trace::{any_intersection, closest_intersection};

fn b(v: f64) -> u64 {
    v.to_bits()
}

/// Roots of `|o + t d - c|^2 = r^2`, both infinite on a miss.
fn roots(o: [f64; 3], d: [f64; 3], c: [f64; 3], r: f64) -> (u64, u64) {
    let co = [o[0] - c[0], o[1] - c[1], o[2] - c[2]];
    let dot = |u: [f64; 3], v: [f64; 3]| u[0] * v[0] + u[1] * v[1] + u[2] * v[2];
    let a = dot(d, d);
    let bb = 2.0 * dot(co, d);
    let cc = dot(co, co) - r * r;
    let disc = bb * bb - 4.0 * a * cc;
    if disc < 0.0 {
        (b(f64::INFINITY), b(f64::INFINITY))
    } else {
        (b((-bb + disc.sqrt()) / (2.0 * a)), b((-bb - disc.sqrt()) / (2.0 * a)))
    }
}

#[test]
fn ieee_order_matches_f64() {
    let vals = [
        f64::NEG_INFINITY,
        -1e300,
        -2.0,
        -1.0,
        -0.0,
        0.0,
        1e-300,
        0.5,
        1.0,
        2.0,
        f64::INFINITY,
        f64::NAN,
        -f64::NAN,
    ];
    for &x in &vals {
        for &y in &vals {
            assert_eq!(less_than(b(x), b(y)), x < y, "{} < {}", x, y);
            assert_eq!(less_or_equal(b(x), b(y)), x <= y, "{} <= {}", x, y);
        }
        assert_eq!(nan(b(x)), x.is_nan());
    }
    assert_eq!(INFINITY_BITS, f64::INFINITY.to_bits());
}

#[test]
fn sphere_mesh_indices() {
    let t = sphere_triangles(15);
    assert_eq!(t.len(), 450);
    assert_eq!(t[0], (0, 16, 1));
    assert_eq!(t[1], (0, 15, 16));
    assert_eq!(t[448], (224, 225, 210));
    assert_eq!(t[449], (224, 239, 225));
    assert!(t.iter().all(|&(a, b, c)| a < 240 && b < 240 && c < 240));
    assert!(sphere_triangles(0).is_empty());
}

fn near_plane_distance(p: [f64; 3]) -> f64 {
    p[2] - 1.0
}

#[test]
fn instance_behind_near_plane_is_culled() {
    let radius = 3.0f64.sqrt();
    let center = [0.0, 0.0, -5.0];
    let cube = [[1.0, 1.0, -4.0], [-1.0, 1.0, -4.0], [-1.0, -1.0, -4.0]];
    let distances: Vec<u64> = cube.iter().map(|&v| b(near_plane_distance(v))).collect();
    let r = clip_model(&vec![(0, 1, 2)], &vec![b(near_plane_distance(center))], b(-radius), &vec![distances]);
    assert_eq!(r, None);
}

#[test]
fn clipping_drops_partly_outside_triangles() {
    let radius = 3.0f64.sqrt();
    let center = [0.0, 0.0, 2.0];
    let vertices = [[0.0, 0.0, 3.0], [1.0, 0.0, 3.0], [0.0, 1.0, 3.0], [0.0, 0.0, 0.5], [0.0, 0.0, 1.0]];
    let distances: Vec<u64> = vertices.iter().map(|&v| b(near_plane_distance(v))).collect();
    let triangles = vec![(0, 1, 2), (0, 1, 3), (2, 1, 0), (0, 4, 2)];
    let r = clip_model(&triangles, &vec![b(near_plane_distance(center))], b(-radius), &vec![distances]);
    assert_eq!(r, Some(vec![0, 2]));
}

#[test]
fn no_planes_keeps_every_triangle() {
    let r = clip_model(&vec![(0, 0, 0), (1, 1, 1)], &vec![], b(-1.0), &vec![]);
    assert_eq!(r, Some(vec![0, 1]));
}

#[test]
fn corners_sorted_by_y() {
    let p = |y| Point::new(0, y);
    assert_eq!(sort_by_y(p(5), p(1), p(3)), (1, 2, 0));
    assert_eq!(sort_by_y(p(1), p(2), p(3)), (0, 1, 2));
    assert_eq!(sort_by_y(p(3), p(2), p(1)), (2, 1, 0));
    assert_eq!(sort_by_y(p(1), p(1), p(0)), (2, 1, 0));
}

#[test]
fn ray_through_center_hits_near_side() {
    let r = roots([0.0, 0.0, 0.0], [0.0, 0.0, 1.0], [0.0, 0.0, 3.0], 1.0);
    assert_eq!(r, (b(4.0), b(2.0)));
    let miss = roots([0.0, 0.0, 0.0], [0.0, 1.0, 0.0], [0.0, 0.0, 3.0], 1.0);
    let far = roots([0.0, 0.0, 0.0], [0.0, 0.0, 1.0], [0.0, 0.0, 6.0], 1.0);
    let hit = closest_intersection(&vec![far, miss, r], b(1.0), b(f64::INFINITY));
    assert_eq!(hit, (b(2.0), Some(2)));
}

#[test]
fn closest_ties_go_to_first_sphere() {
    let hit = closest_intersection(&vec![(b(3.0), b(3.0)), (b(3.0), b(3.0))], b(1.0), b(f64::INFINITY));
    assert_eq!(hit, (b(3.0), Some(0)));
}

#[test]
fn roots_outside_window_are_no_hit() {
    let hit = closest_intersection(&vec![(b(0.5), b(-1.0)), (b(f64::INFINITY), b(f64::INFINITY))], b(1.0), b(f64::INFINITY));
    assert_eq!(hit, (b(f64::INFINITY), None));
    let hit = closest_intersection(&vec![(b(5.0), b(0.5))], b(1.0), b(4.0));
    assert_eq!(hit, (b(f64::INFINITY), None));
    let hit = closest_intersection(&vec![], b(1.0), b(4.0));
    assert_eq!(hit, (b(f64::INFINITY), None));
}

#[test]
fn occluding_sphere_blocks_point_light() {
    let point = [0.0, 0.0, 0.0];
    let to_light = [0.0, 0.0, 10.0];
    let blocker = roots(point, to_light, [0.0, 0.0, 5.0], 1.0);
    assert_eq!(blocker, (b(0.6), b(0.4)));
    assert!(any_intersection(&vec![blocker], b(0.001), b(1.0)));
    let beyond = roots(point, to_light, [0.0, 0.0, 15.0], 1.0);
    assert!(!any_intersection(&vec![beyond], b(0.001), b(1.0)));
}

#[test]
fn missed_spheres_cast_no_directional_shadow() {
    let miss = (b(f64::INFINITY), b(f64::INFINITY));
    assert!(!any_intersection(&vec![miss], b(0.001), b(f64::INFINITY)));
    assert!(any_intersection(&vec![miss, (b(7.0), b(3.0))], b(0.001), b(f64::INFINITY)));
    assert!(!any_intersection(&vec![(b(0.001), b(-2.0))], b(0.001), b(f64::INFINITY)));
}

#[test]
fn keys_become_commands_in_order() {
    let none = Input { open: true, escape: false, w: false, s: false, a: false, d: false, shift: false, up: false, down: false };
    assert!(frame_commands(&none).is_empty());
    let keys = Input { w: true, a: true, shift: true, down: true, ..none };
    assert_eq!(frame_commands(&keys), vec![Command::MoveFront, Command::RotateLeft, Command::MoveDown]);
    let keys = Input { s: true, d: true, up: true, a: true, ..none };
    assert_eq!(
        frame_commands(&keys),
        vec![Command::MoveBack, Command::MoveLeft, Command::MoveRight, Command::MoveUp]
    );
    assert!(keep_running(&none));
    assert!(!keep_running(&Input { escape: true, ..none }));
    assert!(!keep_running(&Input { open: false, ..none }));
}
