use raytracer::hit::Hit;
use raytracer::interval::Interval;
use raytracer::scalar::{Scalar, MAX_BITS};
use raytracer::surface::{closest, reach, Crossing, SELF_HIT_BITS};
use raytracer::vector::Vector3;

fn scalar(value: f64) -> Scalar {
    Scalar::from_bits(value.to_bits())
}

fn number(scalar: Scalar) -> f64 {
    f64::from_bits(scalar.to_bits())
}

fn vector(x: f64, y: f64, z: f64) -> Vector3 {
    Vector3::new(scalar(x), scalar(y), scalar(z))
}

fn numbers(v: Vector3) -> (f64, f64, f64) {
    (number(v.x), number(v.y), number(v.z))
}

fn crossing(discriminant: f64, near: f64, far: f64) -> Crossing {
    Crossing::new(scalar(discriminant), scalar(near), scalar(far))
}

fn window(min: f64, max: f64) -> Interval {
    Interval::new(scalar(min), scalar(max))
}

/// The quadratic of a ray and a sphere, in plain arithmetic.
fn quadratic(origin: [f64; 3], dir: [f64; 3], center: [f64; 3], radius: f64) -> Crossing {
    let oc = [center[0] - origin[0], center[1] - origin[1], center[2] - origin[2]];
    let a = dir[0] * dir[0] + dir[1] * dir[1] + dir[2] * dir[2];
    let h = dir[0] * oc[0] + dir[1] * oc[1] + dir[2] * oc[2];
    let c = oc[0] * oc[0] + oc[1] * oc[1] + oc[2] * oc[2] - radius * radius;
    let discriminant = h * h - a * c;
    let sqrt_d = discriminant.sqrt();
    crossing(discriminant, (h - sqrt_d) / a, (h + sqrt_d) / a)
}

#[test]
fn reach_runs_from_a_thousandth_to_the_largest_number() {
    assert_eq!(SELF_HIT_BITS, 0.001f64.to_bits());
    assert_eq!(reach().min.to_bits(), 0.001f64.to_bits());
    assert_eq!(reach().max.to_bits(), f64::MAX.to_bits());
    assert_eq!(reach().max.to_bits(), MAX_BITS);
}

#[test]
fn root_takes_the_near_root_where_the_window_surrounds_it() {
    let root = crossing(0.25, 0.5, 1.5).root(reach()).unwrap();
    assert_eq!(number(root), 0.5);
}

#[test]
fn root_takes_the_far_root_where_the_near_one_lies_behind() {
    let root = crossing(1.0, -0.5, 0.5).root(reach()).unwrap();
    assert_eq!(number(root), 0.5);
    let root = crossing(1.0, 0.001, 0.5).root(reach()).unwrap();
    assert_eq!(number(root), 0.5);
}

#[test]
fn root_is_none_below_zero_discriminant_whatever_the_roots() {
    assert!(crossing(-0.5, 0.5, 1.5).root(reach()).is_none());
    assert!(crossing(-1e-300, 1.0, 2.0).root(reach()).is_none());
}

#[test]
fn root_is_none_where_the_window_surrounds_neither() {
    assert!(crossing(1.0, -3.0, -1.0).root(reach()).is_none());
    assert!(crossing(1.0, 2.0, 3.0).root(window(0.001, 2.0)).is_none());
    assert!(crossing(1.0, 0.5, 3.0).root(window(0.5, 3.0)).is_none());
    assert!(crossing(f64::NAN, f64::NAN, f64::NAN).root(reach()).is_none());
    assert!(crossing(0.0, f64::INFINITY, f64::INFINITY).root(reach()).is_none());
}

#[test]
fn a_tangent_ray_has_discriminant_zero_and_one_root_twice() {
    // The ray along -z at x = 0.5 touches the sphere of radius 0.5 round (0, 0, -1).
    let touch = quadratic([0.5, 0.0, 0.0], [0.0, 0.0, -1.0], [0.0, 0.0, -1.0], 0.5);
    assert_eq!(number(touch.discriminant), 0.0);
    assert_eq!(number(touch.near), 1.0);
    assert_eq!(number(touch.far), 1.0);
    assert_eq!(number(touch.root(reach()).unwrap()), 1.0);
}

#[test]
fn a_ray_at_the_centre_hits_in_front_and_a_ray_past_the_sphere_misses() {
    let aimed = quadratic([0.0, 0.0, 0.0], [0.0, 0.0, -1.0], [0.0, 0.0, -1.0], 0.5);
    let t = number(aimed.root(reach()).unwrap());
    assert_eq!(t, 0.5);
    assert!(t > 0.0);
    // The outward normal at the hit point (0, 0, -0.5) is (0, 0, 1): back to the origin.
    let hit = Hit::new(scalar(-1.0), vector(0.0, 0.0, -0.5), vector(0.0, 0.0, 1.0), scalar(t));
    assert!(hit.front_face);
    assert_eq!(numbers(hit.n), (0.0, 0.0, 1.0));

    let past = quadratic([0.6, 0.0, 0.0], [0.0, 0.0, -1.0], [0.0, 0.0, -1.0], 0.5);
    assert!(number(past.discriminant) < 0.0);
    assert!(past.root(reach()).is_none());
}

#[test]
fn hit_new_keeps_the_normal_of_a_ray_from_outside() {
    let hit = Hit::new(scalar(-0.25), vector(1.0, 2.0, 3.0), vector(0.0, 1.0, 0.0), scalar(4.0));
    assert!(hit.front_face);
    assert_eq!(numbers(hit.p), (1.0, 2.0, 3.0));
    assert_eq!(numbers(hit.n), (0.0, 1.0, 0.0));
    assert_eq!(number(hit.t), 4.0);
}

#[test]
fn hit_new_turns_the_normal_of_a_ray_from_inside() {
    let hit = Hit::new(scalar(0.25), vector(1.0, 2.0, 3.0), vector(0.5, -1.0, 0.0), scalar(4.0));
    assert!(!hit.front_face);
    assert_eq!(hit.n.x.to_bits(), (-0.5f64).to_bits());
    assert_eq!(hit.n.y.to_bits(), 1.0f64.to_bits());
    assert_eq!(hit.n.z.to_bits(), (-0.0f64).to_bits());
    // A ray along the surface counts as coming from inside.
    let grazing = Hit::new(scalar(0.0), vector(0.0, 0.0, 0.0), vector(0.0, 0.0, 1.0), scalar(1.0));
    assert!(!grazing.front_face);
    assert_eq!(grazing.n.z.to_bits(), (-1.0f64).to_bits());
}

#[test]
fn closest_of_no_surfaces_is_none() {
    assert!(closest(&Vec::new(), reach()).is_none());
}

#[test]
fn closest_finds_the_nearest_surface_wherever_it_stands() {
    let crossings = vec![crossing(1.0, 5.0, 6.0), crossing(1.0, 2.0, 3.0), crossing(1.0, 4.0, 9.0)];
    let (i, t) = closest(&crossings, reach()).unwrap();
    assert_eq!((i, number(t)), (1, 2.0));
    let crossings = vec![crossing(1.0, 2.0, 3.0), crossing(1.0, 5.0, 6.0), crossing(1.0, 1.5, 9.0)];
    let (i, t) = closest(&crossings, reach()).unwrap();
    assert_eq!((i, number(t)), (2, 1.5));
}

#[test]
fn closest_keeps_the_first_of_two_equal_meetings() {
    let crossings = vec![crossing(1.0, 2.0, 3.0), crossing(1.0, 2.0, 3.0)];
    let (i, t) = closest(&crossings, reach()).unwrap();
    assert_eq!((i, number(t)), (0, 2.0));
}

#[test]
fn closest_passes_over_misses_and_surfaces_behind_the_ray() {
    let crossings = vec![
        crossing(-1.0, 0.5, 0.7),
        crossing(1.0, -4.0, -2.0),
        crossing(1.0, -1.0, 7.0),
        crossing(1.0, 0.0005, 8.0),
    ];
    let (i, t) = closest(&crossings, reach()).unwrap();
    assert_eq!((i, number(t)), (2, 7.0));
    assert!(closest(&crossings[..2].to_vec(), reach()).is_none());
}

#[test]
fn closest_narrows_the_window_to_what_was_found() {
    // The far root of the second surface lies inside the first window but
    // beyond the first meeting.
    let crossings = vec![crossing(1.0, 3.0, 4.0), crossing(1.0, -1.0, 3.5)];
    let (i, t) = closest(&crossings, reach()).unwrap();
    assert_eq!((i, number(t)), (0, 3.0));
}

#[test]
fn closest_in_the_scene_of_two_spheres() {
    let spheres = [([0.0, 0.0, -1.0], 0.5), ([0.0, -100.5, -1.0], 100.0)];
    let crossings = |origin: [f64; 3], dir: [f64; 3]| -> Vec<Crossing> {
        spheres.iter().map(|&(center, radius)| quadratic(origin, dir, center, radius)).collect()
    };
    // Straight ahead: the small sphere, half a unit before its centre.
    let (i, t) = closest(&crossings([0.0, 0.0, 0.0], [0.0, 0.0, -1.0]), reach()).unwrap();
    assert_eq!((i, number(t)), (0, 0.5));
    // Downwards: the ground, a little more than half a unit below the camera.
    let (i, t) = closest(&crossings([0.0, 0.0, 0.0], [0.0, -1.0, 0.0]), reach()).unwrap();
    assert_eq!(i, 1);
    assert!((number(t) - (100.5 - 9999.0f64.sqrt())).abs() < 1e-9);
    // Upwards: nothing but sky.
    assert!(closest(&crossings([0.0, 0.0, 0.0], [0.0, 1.0, 0.0]), reach()).is_none());
}
