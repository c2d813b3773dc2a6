use raytracer::hittable::face_normal;
use raytracer::scalar::negate;

fn bits(p: [f64; 3]) -> [u64; 3] {
    [p[0].to_bits(), p[1].to_bits(), p[2].to_bits()]
}

fn numbers(p: [u64; 3]) -> [f64; 3] {
    [f64::from_bits(p[0]), f64::from_bits(p[1]), f64::from_bits(p[2])]
}

#[test]
fn negate_is_the_negation_of_numbers() {
    let samples = [
        0.0,
        -0.0,
        1.0,
        -1.0,
        0.0001,
        5e-324,
        f64::MAX,
        f64::MIN,
        f64::INFINITY,
        f64::NEG_INFINITY,
        f64::NAN,
        -f64::NAN,
    ];
    for x in samples {
        assert_eq!(negate(x.to_bits()), (-x).to_bits(), "minus {x}");
        assert_eq!(negate(negate(x.to_bits())), x.to_bits());
    }
}

#[test]
fn ray_from_outside_keeps_the_outward_normal() {
    let (front, normal) = face_normal((-1.0f64).to_bits(), bits([0.0, 0.0, 1.0]));
    assert!(front);
    assert_eq!(numbers(normal), [0.0, 0.0, 1.0]);
    let (front, normal) = face_normal((-1e-300f64).to_bits(), bits([0.6, -0.8, 0.0]));
    assert!(front);
    assert_eq!(numbers(normal), [0.6, -0.8, 0.0]);
}

#[test]
fn ray_from_inside_turns_the_normal_round() {
    let (front, normal) = face_normal(1.0f64.to_bits(), bits([0.0, 0.0, 1.0]));
    assert!(!front);
    assert_eq!(normal, bits([-0.0, -0.0, -1.0]));
    let (front, normal) = face_normal(0.25f64.to_bits(), bits([0.6, -0.8, 0.0]));
    assert!(!front);
    assert_eq!(normal, bits([-0.6, 0.8, -0.0]));
}

#[test]
fn ray_along_the_surface_counts_as_from_inside() {
    for against in [0.0, -0.0, f64::NAN] {
        let (front, normal) = face_normal(against.to_bits(), bits([1.0, 0.0, 0.0]));
        assert!(!front);
        assert_eq!(normal, bits([-1.0, -0.0, -0.0]));
    }
}
