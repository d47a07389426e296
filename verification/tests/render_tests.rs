use cgmath::{InnerSpace, Vector3, VectorSpace};
use rand::Rng;
use rand_pcg::Pcg64Mcg;
use raytracer::canvas::encode_picture;
use raytracer::frame::{
    encode_channel, image_height, ASPECT_HEIGHT, ASPECT_WIDTH, IMAGE_WIDTH, MAX_DEPTH,
    SAMPLES_PER_PIXEL,
};
use raytracer::hit::Hit;
use raytracer::path::{Path, Radiance, Step};
use raytracer::scalar::Scalar;
use raytracer::scatter::{in_unit_sphere, on_hemisphere, SEED};
use raytracer::surface::{closest, reach, Crossing};

fn scalar(value: f64) -> Scalar {
    Scalar::from_bits(value.to_bits())
}

fn number(scalar: Scalar) -> f64 {
    f64::from_bits(scalar.to_bits())
}

fn encoded(v: Vector3<f64>) -> raytracer::vector::Vector3 {
    raytracer::vector::Vector3::new(scalar(v.x), scalar(v.y), scalar(v.z))
}

fn decoded(v: raytracer::vector::Vector3) -> Vector3<f64> {
    Vector3::new(number(v.x), number(v.y), number(v.z))
}

struct Sphere {
    center: Vector3<f64>,
    radius: f64,
}

struct Ray {
    origin: Vector3<f64>,
    dir: Vector3<f64>,
}

fn uniform(rng: &mut Pcg64Mcg) -> f64 {
    rng.gen_range(0.0..1.0)
}

fn in_range(rng: &mut Pcg64Mcg, min: f64, max: f64) -> f64 {
    min + (max - min) * uniform(rng)
}

fn unit_vector(rng: &mut Pcg64Mcg) -> Vector3<f64> {
    loop {
        let p = Vector3::new(in_range(rng, -1.0, 1.0), in_range(rng, -1.0, 1.0), in_range(rng, -1.0, 1.0));
        if in_unit_sphere(scalar(p.magnitude())) {
            assert!(p.magnitude() < 1.0);
            return p.normalize();
        }
    }
}

fn hemisphere(rng: &mut Pcg64Mcg, normal: Vector3<f64>) -> Vector3<f64> {
    let v = unit_vector(rng);
    decoded(on_hemisphere(encoded(v), scalar(v.dot(normal))))
}

fn crossing(sphere: &Sphere, ray: &Ray) -> Crossing {
    let oc = sphere.center - ray.origin;
    let a = ray.dir.magnitude2();
    let h = ray.dir.dot(oc);
    let c = oc.magnitude2() - sphere.radius * sphere.radius;
    let discriminant = h * h - a * c;
    let sqrt_d = discriminant.sqrt();
    Crossing::new(scalar(discriminant), scalar((h - sqrt_d) / a), scalar((h + sqrt_d) / a))
}

fn sky(dir: Vector3<f64>) -> Vector3<f64> {
    let normalized_y = 0.5 * (dir.normalize().y + 1.0);
    Vector3::new(1.0, 1.0, 1.0).lerp(Vector3::new(0.5, 0.7, 1.0), normalized_y)
}

/// The colour that a ray gathers, and the number of its bounces.
fn ray_color(ray: Ray, world: &Vec<Sphere>, depth: u32, rng: &mut Pcg64Mcg) -> (Vector3<f64>, u32) {
    let mut path = Path::new(depth);
    let mut ray = ray;
    loop {
        let crossings: Vec<Crossing> = world.iter().map(|sphere| crossing(sphere, &ray)).collect();
        match path.advance(&crossings) {
            Step::Gathered(radiance) => {
                let gathered = decoded(radiance.colour(encoded(sky(ray.dir))));
                // The library halves as the multiplication by 0.5 does.
                if let Radiance::Sky { halvings } = radiance {
                    let mut color = sky(ray.dir);
                    for _ in 0..halvings {
                        color = 0.5 * color;
                    }
                    assert_eq!(gathered, color);
                    assert_eq!(halvings, path.bounces());
                }
                return (gathered, path.bounces());
            }
            Step::Scattered { surface, t } => {
                assert_eq!(closest(&crossings, reach()).map(|(i, t)| (i, t.to_bits())), Some((surface, t.to_bits())));
                let sphere = &world[surface];
                let p = ray.origin + ray.dir * number(t);
                let outward = (p - sphere.center) / sphere.radius;
                let hit = Hit::new(scalar(ray.dir.dot(outward)), encoded(p), encoded(outward), t);
                assert!(ray.dir.dot(decoded(hit.n)) <= 0.0);
                let direction = hemisphere(rng, decoded(hit.n));
                ray = Ray { origin: decoded(hit.p), dir: direction };
            }
        }
    }
}

fn world() -> Vec<Sphere> {
    vec![
        Sphere { center: Vector3::new(0.0, 0.0, -1.0), radius: 0.5 },
        Sphere { center: Vector3::new(0.0, -100.5, -1.0), radius: 100.0 },
    ]
}

struct Camera {
    width: u32,
    height: u32,
    pixel00: Vector3<f64>,
    delta_u: Vector3<f64>,
    delta_v: Vector3<f64>,
}

fn camera(width: u32) -> Camera {
    let height = image_height(width, ASPECT_WIDTH, ASPECT_HEIGHT);
    let viewport_u = Vector3::new(2.0 * width as f64 / height as f64, 0.0, 0.0);
    let viewport_v = Vector3::new(0.0, -2.0, 0.0);
    let delta_u = viewport_u / width as f64;
    let delta_v = viewport_v / height as f64;
    let upper_left = Vector3::new(0.0, 0.0, -1.0) - viewport_u / 2.0 - viewport_v / 2.0;
    Camera { width, height, pixel00: upper_left + 0.5 * (delta_u + delta_v), delta_u, delta_v }
}

/// The averaged colour of the pixel `(x, y)`, and the bounces of all its rays together.
fn pixel(camera: &Camera, x: u32, y: u32, samples: u32, rng: &mut Pcg64Mcg) -> (Vector3<f64>, u32) {
    let world = world();
    let mut color = Vector3::new(0.0, 0.0, 0.0);
    let mut bounces = 0;
    for _ in 0..samples {
        let offset = Vector3::new(uniform(rng) - 0.5, uniform(rng) - 0.5, 0.0);
        let sample = camera.pixel00
            + ((x as f64 + offset.x) * camera.delta_u)
            + ((y as f64 + offset.y) * camera.delta_v);
        let ray = Ray { origin: Vector3::new(0.0, 0.0, 0.0), dir: sample };
        let (gathered, bounced) = ray_color(ray, &world, MAX_DEPTH, rng);
        color = color + gathered;
        bounces += bounced;
    }
    ((1.0 / samples as f64) * color, bounces)
}

fn render(width: u32, samples: u32) -> Vec<u8> {
    let camera = camera(width);
    let mut rng = Pcg64Mcg::new(SEED);
    let mut colors = Vec::new();
    for y in 0..camera.height {
        for x in 0..camera.width {
            colors.push(encoded(pixel(&camera, x, y, samples, &mut rng).0));
        }
    }
    encode_picture(camera.width, camera.height, &colors)
}

fn bytes(color: Vector3<f64>) -> [u8; 3] {
    [
        encode_channel(scalar(color.x)),
        encode_channel(scalar(color.y)),
        encode_channel(scalar(color.z)),
    ]
}

#[test]
fn the_picture_is_400_by_225_with_50_rays_of_depth_50() {
    assert_eq!(IMAGE_WIDTH, 400);
    assert_eq!(image_height(IMAGE_WIDTH, ASPECT_WIDTH, ASPECT_HEIGHT), 225);
    assert_eq!(SAMPLES_PER_PIXEL, 50);
    assert_eq!(MAX_DEPTH, 50);
}

#[test]
fn unit_vectors_have_length_one() {
    let mut rng = Pcg64Mcg::new(SEED);
    for _ in 0..2000 {
        assert!((unit_vector(&mut rng).magnitude() - 1.0).abs() < 1e-12);
    }
}

#[test]
fn directions_on_a_hemisphere_do_not_face_away_from_its_normal() {
    let mut rng = Pcg64Mcg::new(SEED);
    let normals = [
        Vector3::new(0.0, 1.0, 0.0),
        Vector3::new(0.0, 0.0, -1.0),
        Vector3::new(0.6, -0.8, 0.0),
        Vector3::new(-0.267261241912424, 0.534522483824849, 0.801783725737273),
    ];
    for _ in 0..500 {
        for normal in normals {
            let direction = hemisphere(&mut rng, normal);
            assert!(direction.dot(normal) >= 0.0);
            assert!((direction.magnitude() - 1.0).abs() < 1e-12);
        }
    }
}

#[test]
fn no_depth_is_pure_black_whatever_the_ray_and_the_world() {
    let mut rng = Pcg64Mcg::new(SEED);
    let rays = [
        Vector3::new(0.0, 0.0, -1.0),
        Vector3::new(0.0, 1.0, 0.0),
        Vector3::new(0.0, -1.0, 0.0),
        Vector3::new(0.0, 0.0, 0.0),
    ];
    for dir in rays {
        let ray = Ray { origin: Vector3::new(0.0, 0.0, 0.0), dir };
        let (color, bounces) = ray_color(ray, &world(), 0, &mut rng);
        assert_eq!(color, Vector3::new(0.0, 0.0, 0.0));
        assert_eq!(bounces, 0);
        let ray = Ray { origin: Vector3::new(0.0, 0.0, 0.0), dir };
        assert_eq!(ray_color(ray, &Vec::new(), 0, &mut rng).0, Vector3::new(0.0, 0.0, 0.0));
    }
    // Not one number was drawn.
    assert_eq!(uniform(&mut rng), uniform(&mut Pcg64Mcg::new(SEED)));
}

#[test]
fn the_same_seed_gives_the_same_picture() {
    let first = render(32, 8);
    let second = render(32, 8);
    assert_eq!(first.len(), 32 * 18 * 3);
    assert_eq!(first, second);
}

#[test]
fn a_pixel_on_the_small_sphere_is_darker_than_the_sky() {
    let camera = camera(IMAGE_WIDTH);
    assert_eq!((camera.width, camera.height), (400, 225));
    let mut rng = Pcg64Mcg::new(SEED);
    let (color, bounces) = pixel(&camera, 200, 56, SAMPLES_PER_PIXEL, &mut rng);
    assert!(bounces >= SAMPLES_PER_PIXEL);
    let seen = bytes(color);
    // The sky is nowhere darker than (0.5, 0.7, 1.0); one bounce halves it.
    assert!(seen[0] < 128);
    assert!(seen[1] < 180);
    assert!(seen[2] < 255);
}

#[test]
fn a_pixel_of_the_top_row_shows_the_sky_as_it_is() {
    let camera = camera(IMAGE_WIDTH);
    let mut rng = Pcg64Mcg::new(SEED);
    for x in [0, 200, 399] {
        let (color, bounces) = pixel(&camera, x, 0, SAMPLES_PER_PIXEL, &mut rng);
        assert_eq!(bounces, 0);
        let seen = bytes(color);
        let centre = camera.pixel00 + (x as f64 * camera.delta_u);
        let expected = bytes(sky(centre));
        for channel in 0..3 {
            assert!((seen[channel] as i32 - expected[channel] as i32).abs() <= 1);
        }
    }
}
