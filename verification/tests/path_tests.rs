use raytracer::path::{radiance, Path, Radiance, Step};
use raytracer::surface::Crossing;
use raytracer::scalar::Scalar;
use raytracer::vector::Vector3;

fn colour(red: f64, green: f64, blue: f64) -> Vector3 {
    Vector3::new(
        Scalar::from_bits(red.to_bits()),
        Scalar::from_bits(green.to_bits()),
        Scalar::from_bits(blue.to_bits()),
    )
}

fn scalar(value: f64) -> Scalar {
    Scalar::from_bits(value.to_bits())
}

/// The crossings of a ray that meets the one surface of its scene at 2.
fn meeting() -> Vec<Crossing> {
    vec![Crossing::new(scalar(1.0), scalar(2.0), scalar(3.0))]
}

/// The crossings of a ray that passes the one surface of its scene.
fn passing() -> Vec<Crossing> {
    vec![Crossing::new(scalar(-1.0), scalar(f64::NAN), scalar(f64::NAN))]
}

/// The crossings of the rays of a path, of which `meets` says which meet a surface.
fn rays(meets: &[bool]) -> Vec<Vec<Crossing>> {
    meets.iter().map(|&met| if met { meeting() } else { passing() }).collect()
}

fn bits(v: Vector3) -> (u64, u64, u64) {
    (v.x.to_bits(), v.y.to_bits(), v.z.to_bits())
}

#[test]
fn no_depth_gathers_nothing_whatever_the_rays_meet() {
    assert_eq!(radiance(0, &rays(&[])), Radiance::Black);
    assert_eq!(radiance(0, &rays(&[false])), Radiance::Black);
    assert_eq!(radiance(0, &rays(&[true, true, false])), Radiance::Black);
    assert!(Path::new(0).spent());
    assert_eq!(Path::new(0).escape(), Radiance::Black);
}

#[test]
fn a_ray_that_escapes_at_once_sees_the_whole_sky() {
    assert_eq!(radiance(50, &rays(&[false])), Radiance::Sky { halvings: 0 });
    assert_eq!(radiance(1, &rays(&[false, true])), Radiance::Sky { halvings: 0 });
    assert_eq!(radiance(1, &rays(&[])), Radiance::Sky { halvings: 0 });
}

#[test]
fn each_bounce_halves_the_sky_once() {
    assert_eq!(radiance(50, &rays(&[true, false])), Radiance::Sky { halvings: 1 });
    assert_eq!(radiance(50, &rays(&[true, true, true, false, true])), Radiance::Sky { halvings: 3 });
    assert_eq!(radiance(4, &rays(&[true, true, true, false])), Radiance::Sky { halvings: 3 });
}

#[test]
fn a_path_that_bounces_as_often_as_it_has_depth_gathers_nothing() {
    assert_eq!(radiance(3, &rays(&[true, true, true, false])), Radiance::Black);
    assert_eq!(radiance(1, &rays(&[true])), Radiance::Black);
    assert_eq!(radiance(2, &rays(&[true, true, true, true])), Radiance::Black);
}

#[test]
fn the_path_counts_its_bounces_step_by_step() {
    let mut path = Path::new(2);
    assert!(!path.spent());
    assert_eq!(path.bounces(), 0);
    assert_eq!(path.escape(), Radiance::Sky { halvings: 0 });
    path.bounce();
    assert!(!path.spent());
    assert_eq!(path.bounces(), 1);
    assert_eq!(path.escape(), Radiance::Sky { halvings: 1 });
    path.bounce();
    assert!(path.spent());
    assert_eq!(path.bounces(), 2);
    assert_eq!(path.escape(), Radiance::Black);
}

#[test]
fn the_deepest_path_there_is() {
    let meets = vec![true; 1000];
    assert_eq!(radiance(u32::MAX, &rays(&meets)), Radiance::Sky { halvings: 1000 });
}

#[test]
fn black_is_pure_black_whatever_the_sky() {
    let sky = colour(0.5, 0.7, 1.0);
    assert_eq!(bits(Radiance::Black.colour(sky)), (0, 0, 0));
    assert_eq!(bits(radiance(0, &rays(&[false])).colour(sky)), bits(colour(0.0, 0.0, 0.0)));
    assert_eq!(bits(radiance(2, &rays(&[true, true])).colour(colour(f64::NAN, 9.0, -1.0))), (0, 0, 0));
}

#[test]
fn the_sky_is_halved_once_for_each_bounce() {
    let sky = colour(0.5, 0.7, 1.0);
    assert_eq!(bits(Radiance::Sky { halvings: 0 }.colour(sky)), bits(sky));
    assert_eq!(bits(Radiance::Sky { halvings: 1 }.colour(sky)), bits(colour(0.25, 0.35, 0.5)));
    assert_eq!(
        bits(radiance(50, &rays(&[true, true, true, false])).colour(sky)),
        bits(colour(0.0625, 0.0875, 0.125))
    );
    assert_eq!(bits(colour(1.0, -2.0, 0.0).halved(2)), bits(colour(0.25, -0.5, 0.0)));
}

#[test]
fn advance_scatters_at_the_nearest_surface() {
    let mut path = Path::new(3);
    let crossings = vec![
        Crossing::new(scalar(1.0), scalar(5.0), scalar(6.0)),
        Crossing::new(scalar(1.0), scalar(-1.0), scalar(2.5)),
        Crossing::new(scalar(-1.0), scalar(0.5), scalar(0.6)),
    ];
    match path.advance(&crossings) {
        Step::Scattered { surface, t } => {
            assert_eq!(surface, 1);
            assert_eq!(t.to_bits(), 2.5f64.to_bits());
        }
        Step::Gathered(_) => panic!("the ray meets a surface"),
    }
    assert_eq!(path.bounces(), 1);
    assert!(!path.spent());
}

#[test]
fn advance_gathers_the_sky_where_the_ray_escapes() {
    let mut path = Path::new(3);
    assert!(matches!(path.advance(&meeting()), Step::Scattered { surface: 0, .. }));
    assert!(matches!(path.advance(&meeting()), Step::Scattered { surface: 0, .. }));
    assert!(matches!(path.advance(&passing()), Step::Gathered(Radiance::Sky { halvings: 2 })));
    assert!(matches!(path.advance(&Vec::new()), Step::Gathered(Radiance::Sky { halvings: 2 })));
    assert_eq!(path.bounces(), 2);
}

#[test]
fn advance_without_depth_gathers_nothing_and_looks_at_nothing() {
    let mut path = Path::new(0);
    assert!(matches!(path.advance(&meeting()), Step::Gathered(Radiance::Black)));
    assert!(matches!(path.advance(&passing()), Step::Gathered(Radiance::Black)));
    assert_eq!(path.bounces(), 0);
    let mut path = Path::new(1);
    assert!(matches!(path.advance(&meeting()), Step::Scattered { .. }));
    assert!(matches!(path.advance(&meeting()), Step::Gathered(Radiance::Black)));
    assert_eq!(path.bounces(), 1);
}
