use raytracer::util::{divide_into_parts, random_int};

#[test]
fn ten_samples_for_three_workers() {
    assert_eq!(divide_into_parts(10, 3), vec![4, 3, 3]);
}

#[test]
fn shares_add_up_and_differ_by_at_most_one() {
    for n in 0..60 {
        for m in 1..12 {
            let shares = divide_into_parts(n, m);
            assert_eq!(shares.len(), m as usize);
            assert_eq!(shares.iter().sum::<i32>(), n);
            for (i, share) in shares.iter().enumerate() {
                assert!(*share >= 0);
                assert!(*share == n / m || *share == n / m + 1);
                assert_eq!(*share == n / m + 1, (i as i32) < n % m);
            }
            for pair in shares.windows(2) {
                assert!(pair[0] >= pair[1]);
            }
        }
    }
}

#[test]
fn even_split_has_no_extra() {
    assert_eq!(divide_into_parts(200, 8), vec![25; 8]);
    assert_eq!(divide_into_parts(0, 4), vec![0, 0, 0, 0]);
}

#[test]
fn fewer_samples_than_workers() {
    assert_eq!(divide_into_parts(2, 5), vec![1, 1, 0, 0, 0]);
}

#[test]
fn one_worker_takes_all() {
    assert_eq!(divide_into_parts(7, 1), vec![7]);
    assert_eq!(divide_into_parts(i32::MAX, 1), vec![i32::MAX]);
}

#[test]
fn largest_budget_for_two_workers() {
    assert_eq!(divide_into_parts(i32::MAX, 2), vec![1073741824, 1073741823]);
}

#[test]
fn no_worker_gets_no_share() {
    assert_eq!(divide_into_parts(10, 0), Vec::<i32>::new());
    assert_eq!(divide_into_parts(10, -3), Vec::<i32>::new());
    assert_eq!(divide_into_parts(-10, -3), Vec::<i32>::new());
}

#[test]
fn negative_budget_rounds_toward_zero() {
    assert_eq!(divide_into_parts(-7, 2), vec![-3, -3]);
    assert_eq!(divide_into_parts(-6, 3), vec![-2, -2, -2]);
    assert_eq!(divide_into_parts(i32::MIN, 1), vec![i32::MIN]);
}

#[test]
fn random_int_stays_in_range() {
    for _ in 0..2000 {
        let axis = random_int(0, 2);
        assert!((0..=2).contains(&axis));
        let signed = random_int(-3, 3);
        assert!((-3..=3).contains(&signed));
    }
}

#[test]
fn random_int_of_single_value() {
    assert_eq!(random_int(5, 5), 5);
    assert_eq!(random_int(-1, -1), -1);
    assert_eq!(random_int(i32::MAX, i32::MAX), i32::MAX);
}

#[test]
fn random_int_reaches_every_value() {
    let mut seen = [false; 3];
    for _ in 0..2000 {
        seen[random_int(0, 2) as usize] = true;
    }
    assert_eq!(seen, [true, true, true]);
}

#[test]
fn random_int_varies() {
    let first = random_int(0, 1_000_000);
    let mut differs = false;
    for _ in 0..200 {
        let next = random_int(0, 1_000_000);
        assert!((0..=1_000_000).contains(&next));
        if next != first {
            differs = true;
        }
    }
    assert!(differs);
}
