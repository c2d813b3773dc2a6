use raytracer::render::scan_order;

#[test]
fn scan_starts_at_the_top_row() {
    assert_eq!(scan_order(3, 2), vec![(0, 1), (1, 1), (2, 1), (0, 0), (1, 0), (2, 0)]);
}

#[test]
fn scan_of_a_single_pixel() {
    assert_eq!(scan_order(1, 1), vec![(0, 0)]);
}

#[test]
fn scan_of_a_single_row_or_column() {
    assert_eq!(scan_order(4, 1), vec![(0, 0), (1, 0), (2, 0), (3, 0)]);
    assert_eq!(scan_order(1, 3), vec![(0, 2), (0, 1), (0, 0)]);
}

#[test]
fn size_that_is_not_positive_has_no_pixel() {
    assert!(scan_order(0, 5).is_empty());
    assert!(scan_order(5, 0).is_empty());
    assert!(scan_order(-2, 3).is_empty());
    assert!(scan_order(3, -2).is_empty());
    assert!(scan_order(-3, -2).is_empty());
}

#[test]
fn scan_visits_every_pixel_once() {
    let (width, height) = (40, 25);
    let order = scan_order(width, height);
    assert_eq!(order.len(), (width * height) as usize);
    for (k, (i, j)) in order.iter().enumerate() {
        assert!(0 <= *i && *i < width && 0 <= *j && *j < height);
        assert_eq!(k as i32, (height - 1 - j) * width + i);
    }
}

// A scene for the path of a ray: one sphere round (0, 0, -1) under a sky of
// one colour. The sphere scatters every ray along its normal and keeps half
// of the light; `glow` is what it emits.
struct Lit {
    glow: f64,
    scatters: bool,
}

type Beam = ([f64; 3], [f64; 3]);
type Spot = [f64; 3];

const SKY: [f64; 3] = [0.5, 0.7, 1.0];
const BLACK: [f64; 3] = [0.0, 0.0, 0.0];

impl Lit {
    fn hit(&self, r: Beam) -> Option<Spot> {
        let (origin, direction) = r;
        let center = [0.0, 0.0, -1.0];
        let oc = [origin[0] - center[0], origin[1] - center[1], origin[2] - center[2]];
        let dot = |u: [f64; 3], v: [f64; 3]| u[0] * v[0] + u[1] * v[1] + u[2] * v[2];
        let a = dot(direction, direction);
        let half_b = dot(oc, direction);
        let c = dot(oc, oc) - 0.25;
        let discriminant = half_b * half_b - a * c;
        let sqrtd = discriminant.sqrt();
        raytracer::sphere::nearest_root(
            discriminant.to_bits(),
            ((-half_b - sqrtd) / a).to_bits(),
            ((-half_b + sqrtd) / a).to_bits(),
            0.001f64.to_bits(),
            f64::INFINITY.to_bits(),
        )
        .map(|t| {
            let t = f64::from_bits(t);
            let along = |axis: usize| origin[axis] + t * direction[axis];
            [along(0), along(1), along(2)]
        })
    }

    fn color(&self, r: Beam, depth: i32) -> [f64; 3] {
        let hit = |r: Beam| self.hit(r);
        let emitted = |_: Spot| [self.glow; 3];
        let scatter = |_: Beam, p: Spot| {
            if self.scatters {
                Some(([0.5; 3], (p, [p[0], p[1], p[2] + 1.0])))
            } else {
                None
            }
        };
        let combine = |e: [f64; 3], a: [f64; 3], c: [f64; 3]| {
            [e[0] + a[0] * c[0], e[1] + a[1] * c[1], e[2] + a[2] * c[2]]
        };
        raytracer::render::ray_color(r, SKY, BLACK, &hit, &emitted, &scatter, &combine, depth)
    }
}

const AT_SPHERE: Beam = ([0.0, 0.0, 0.0], [0.0, 0.0, -1.0]);
const AT_SKY: Beam = ([0.0, 0.0, 0.0], [0.0, 1.0, 0.0]);

#[test]
fn ray_without_a_bounce_left_gathers_black() {
    let scene = Lit { glow: 0.0, scatters: true };
    assert_eq!(scene.color(AT_SPHERE, 0), BLACK);
    assert_eq!(scene.color(AT_SKY, 0), BLACK);
    assert_eq!(scene.color(AT_SPHERE, -3), BLACK);
    let lamp = Lit { glow: 4.0, scatters: false };
    assert_eq!(lamp.color(AT_SPHERE, 0), BLACK);
}

#[test]
fn ray_that_hits_nothing_gathers_the_background() {
    let scene = Lit { glow: 0.0, scatters: true };
    assert_eq!(scene.color(AT_SKY, 1), SKY);
    assert_eq!(scene.color(AT_SKY, 50), SKY);
}

#[test]
fn sphere_seen_with_one_bounce_is_black() {
    let scene = Lit { glow: 0.0, scatters: true };
    assert_eq!(scene.color(AT_SPHERE, 1), BLACK);
}

#[test]
fn sphere_seen_with_two_bounces_is_darker_than_the_sky_and_brighter_than_black() {
    let scene = Lit { glow: 0.0, scatters: true };
    let seen = scene.color(AT_SPHERE, 2);
    assert_eq!(seen, [0.25, 0.35, 0.5]);
    for channel in 0..3 {
        assert!(BLACK[channel] < seen[channel] && seen[channel] < SKY[channel]);
    }
    assert_eq!(scene.color(AT_SPHERE, 50), seen);
}

#[test]
fn surface_that_absorbs_shows_what_it_emits() {
    let lamp = Lit { glow: 4.0, scatters: false };
    assert_eq!(lamp.color(AT_SPHERE, 1), [4.0, 4.0, 4.0]);
    assert_eq!(lamp.color(AT_SPHERE, 50), [4.0, 4.0, 4.0]);
}

#[test]
fn emitted_light_is_added_to_scattered_light() {
    let scene = Lit { glow: 1.0, scatters: true };
    assert_eq!(scene.color(AT_SPHERE, 1), [1.0, 1.0, 1.0]);
    assert_eq!(scene.color(AT_SPHERE, 2), [1.25, 1.35, 1.5]);
}

#[test]
fn image_has_the_sum_of_the_samples_of_each_pixel_in_scan_order() {
    let asked = std::cell::RefCell::new(Vec::new());
    let finished = std::cell::Cell::new(0);
    let sample = |i: i32, j: i32| {
        asked.borrow_mut().push((i, j));
        10 * i + j
    };
    let accumulate = |sum: i32, light: i32| sum + light;
    let done = || finished.set(finished.get() + 1);
    let output = raytracer::render::render_image(3, 2, 4, 0, &sample, &accumulate, &done);
    assert_eq!(output, vec![4, 44, 84, 0, 40, 80]);
    assert_eq!(finished.get(), 6);
    assert_eq!(asked.borrow().len(), 24);
    assert_eq!(asked.borrow()[..5], [(0, 1), (0, 1), (0, 1), (0, 1), (1, 1)]);
}

#[test]
fn samples_are_added_in_the_order_in_which_they_are_taken() {
    let next = std::cell::Cell::new(0);
    let sample = |_: i32, _: i32| {
        next.set(next.get() + 1);
        next.get()
    };
    let accumulate = |sum: i32, light: i32| 10 * sum + light;
    let output = raytracer::render::render_image(2, 1, 3, 0, &sample, &accumulate, &|| ());
    assert_eq!(output, vec![123, 456]);
}

#[test]
fn image_without_samples_is_black() {
    let sample = |_: i32, _: i32| 7;
    let accumulate = |sum: i32, light: i32| sum + light;
    let finished = std::cell::Cell::new(0);
    let done = || finished.set(finished.get() + 1);
    for samples in [0, -5] {
        let output =
            raytracer::render::render_image(2, 2, samples, -1, &sample, &accumulate, &done);
        assert_eq!(output, vec![-1; 4]);
    }
    assert_eq!(finished.get(), 8);
}

#[test]
fn image_of_no_size_has_no_pixel() {
    let sample = |_: i32, _: i32| 7;
    let accumulate = |sum: i32, light: i32| sum + light;
    let output = raytracer::render::render_image(0, 5, 3, 0, &sample, &accumulate, &|| ());
    assert!(output.is_empty());
    let output = raytracer::render::render_image(5, -1, 3, 0, &sample, &accumulate, &|| ());
    assert!(output.is_empty());
}

#[test]
fn buffers_are_added_pixel_by_pixel() {
    let accumulate = |a: i32, b: i32| a + b;
    let total = raytracer::render::sum_buffers(vec![1, 2, 3], vec![10, 20, 30], &accumulate);
    assert_eq!(total, vec![11, 22, 33]);
    let total = raytracer::render::sum_buffers(vec![5, 7], vec![1, 2], &|a: i32, b: i32| a - b);
    assert_eq!(total, vec![4, 5]);
}

#[test]
fn sum_of_buffers_has_the_pixels_that_both_hold() {
    let accumulate = |a: i32, b: i32| a + b;
    assert_eq!(raytracer::render::sum_buffers(vec![1, 2, 3], vec![10], &accumulate), vec![11]);
    assert_eq!(raytracer::render::sum_buffers(vec![1], vec![10, 20], &accumulate), vec![11]);
    assert_eq!(raytracer::render::sum_buffers(Vec::new(), vec![10, 20], &accumulate), vec![]);
}

#[test]
fn shares_of_all_workers_give_the_samples_of_one() {
    // Four workers render with the shares of ten samples; their buffers add
    // up to what one worker renders with all ten.
    let sample = |i: i32, j: i32| 100 * i + j;
    let accumulate = |sum: i32, light: i32| sum + light;
    let render = |samples: i32| {
        raytracer::render::render_image(3, 3, samples, 0, &sample, &accumulate, &|| ())
    };
    let mut total = vec![0; 9];
    for share in raytracer::util::divide_into_parts(10, 4) {
        total = raytracer::render::sum_buffers(total, render(share), &accumulate);
    }
    assert_eq!(total, render(10));
}
