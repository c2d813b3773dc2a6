use raytracer::constant_medium::clip;

fn cut(enter: f64, leave: f64, t_min: f64, t_max: f64) -> Option<(f64, f64)> {
    clip(enter.to_bits(), leave.to_bits(), t_min.to_bits(), t_max.to_bits())
        .map(|(a, b)| (f64::from_bits(a), f64::from_bits(b)))
}

#[test]
fn stretch_inside_the_window_is_kept() {
    assert_eq!(cut(1.0, 2.0, 0.001, f64::INFINITY), Some((1.0, 2.0)));
}

#[test]
fn stretch_is_cut_to_the_window() {
    assert_eq!(cut(1.0, 5.0, 2.0, 4.0), Some((2.0, 4.0)));
    assert_eq!(cut(1.0, 3.0, 2.0, 4.0), Some((2.0, 3.0)));
    assert_eq!(cut(3.0, 5.0, 2.0, 4.0), Some((3.0, 4.0)));
}

#[test]
fn stretch_outside_the_window_is_lost() {
    assert_eq!(cut(1.0, 2.0, 3.0, 4.0), None);
    assert_eq!(cut(5.0, 6.0, 3.0, 4.0), None);
}

#[test]
fn stretch_without_length_is_lost() {
    assert_eq!(cut(1.0, 1.0, 0.0, 4.0), None);
    assert_eq!(cut(1.0, 2.0, 2.0, 4.0), None);
    assert_eq!(cut(3.0, 5.0, 1.0, 3.0), None);
    assert_eq!(cut(2.0, 1.0, 0.0, 4.0), None);
}

#[test]
fn ray_that_starts_inside_begins_at_its_origin() {
    assert_eq!(cut(-3.0, 2.0, f64::NEG_INFINITY, f64::INFINITY), Some((0.0, 2.0)));
    assert_eq!(cut(-3.0, 2.0, -1.0, f64::INFINITY), Some((0.0, 2.0)));
    assert_eq!(cut(-3.0, 2.0, 0.001, f64::INFINITY), Some((0.001, 2.0)));
}

#[test]
fn stretch_behind_the_ray_begins_at_its_origin_too() {
    assert_eq!(cut(-3.0, -1.0, f64::NEG_INFINITY, f64::INFINITY), Some((0.0, -1.0)));
}

#[test]
fn clip_follows_the_comparisons_of_numbers() {
    let values =
        [-2.0, -0.0, 0.0, 0.001, 1.0, 2.5, f64::INFINITY, f64::NEG_INFINITY, f64::NAN];
    for enter in values {
        for leave in values {
            for t_min in values {
                for t_max in values {
                    let mut begin = enter;
                    let mut end = leave;
                    if begin < t_min {
                        begin = t_min;
                    }
                    if end > t_max {
                        end = t_max;
                    }
                    let expected = if begin >= end {
                        None
                    } else {
                        if begin < 0.0 {
                            begin = 0.0;
                        }
                        Some((begin.to_bits(), end.to_bits()))
                    };
                    let got =
                        clip(enter.to_bits(), leave.to_bits(), t_min.to_bits(), t_max.to_bits());
                    assert_eq!(got, expected, "{enter} {leave} {t_min} {t_max}");
                }
            }
        }
    }
}

// A slab of fog between two ray parameters, and the free path that the test
// hands out in place of a random draw.
struct Fog {
    enter: f64,
    leave: f64,
    free: f64,
    asked: std::cell::RefCell<Vec<(f64, f64)>>,
}

impl Fog {
    fn new(enter: f64, leave: f64, free: f64) -> Fog {
        Fog { enter, leave, free, asked: std::cell::RefCell::new(Vec::new()) }
    }

    fn scattered(&self, t_min: f64, t_max: f64) -> Option<f64> {
        let boundary_hit = |lo: u64, hi: u64| {
            let (lo, hi) = (f64::from_bits(lo), f64::from_bits(hi));
            self.asked.borrow_mut().push((lo, hi));
            [self.enter, self.leave].into_iter().find(|t| lo <= *t && *t <= hi).map(f64::to_bits)
        };
        let next_after = |t: u64| (f64::from_bits(t) + 0.0001).to_bits();
        let free_path = |begin: u64, end: u64| {
            let (begin, end) = (f64::from_bits(begin), f64::from_bits(end));
            raytracer::constant_medium::FreePath {
                hit_distance: self.free.to_bits(),
                distance_inside_boundary: (end - begin).to_bits(),
                t: (begin + self.free).to_bits(),
            }
        };
        raytracer::constant_medium::hit(
            &boundary_hit,
            &next_after,
            &free_path,
            t_min.to_bits(),
            t_max.to_bits(),
        )
        .map(f64::from_bits)
    }
}

#[test]
fn ray_is_scattered_where_the_free_path_ends() {
    let fog = Fog::new(2.0, 6.0, 1.5);
    assert_eq!(fog.scattered(0.001, f64::INFINITY), Some(3.5));
}

#[test]
fn boundary_is_searched_on_the_whole_line_and_then_after_the_first_hit() {
    let fog = Fog::new(2.0, 6.0, 1.5);
    fog.scattered(0.001, 100.0);
    assert_eq!(
        *fog.asked.borrow(),
        vec![(f64::NEG_INFINITY, f64::INFINITY), (2.0001, f64::INFINITY)]
    );
}

#[test]
fn free_path_longer_than_the_stretch_passes_through() {
    let fog = Fog::new(2.0, 6.0, 4.5);
    assert_eq!(fog.scattered(0.001, f64::INFINITY), None);
}

#[test]
fn free_path_as_long_as_the_stretch_scatters_at_its_end() {
    let fog = Fog::new(2.0, 6.0, 4.0);
    assert_eq!(fog.scattered(0.001, f64::INFINITY), Some(6.0));
}

#[test]
fn ray_that_misses_the_boundary_is_not_scattered() {
    let fog = Fog::new(f64::NAN, f64::NAN, 0.5);
    assert_eq!(fog.scattered(0.001, f64::INFINITY), None);
    assert_eq!(fog.asked.borrow().len(), 1);
}

#[test]
fn ray_that_never_leaves_is_not_scattered() {
    let fog = Fog::new(2.0, f64::NAN, 0.5);
    assert_eq!(fog.scattered(0.001, f64::INFINITY), None);
    assert_eq!(fog.asked.borrow().len(), 2);
}

#[test]
fn stretch_is_measured_inside_the_window() {
    let fog = Fog::new(2.0, 6.0, 1.5);
    assert_eq!(fog.scattered(3.0, f64::INFINITY), Some(4.5));
    assert_eq!(fog.scattered(0.001, 3.0), None);
    assert_eq!(fog.scattered(0.001, 3.5), Some(3.5));
    assert_eq!(fog.scattered(7.0, 9.0), None);
    assert_eq!(fog.scattered(0.001, 1.0), None);
}

#[test]
fn ray_that_starts_in_the_fog_is_measured_from_its_origin() {
    let fog = Fog::new(-3.0, 6.0, 1.5);
    assert_eq!(fog.scattered(f64::NEG_INFINITY, f64::INFINITY), Some(1.5));
    assert_eq!(fog.scattered(0.001, f64::INFINITY), Some(1.501));
}
