use embedded_graphics::sqrt::rounded_sqrt;

#[test]
fn small_roots_are_rounded_to_the_nearest_integer() {
    let expected = [0u128, 1, 1, 2, 2, 2, 2, 3, 3, 3, 3, 3, 3, 4, 4, 4, 4];
    for (n, root) in expected.iter().enumerate() {
        assert_eq!(rounded_sqrt(n as u128), *root);
    }
}

#[test]
fn roots_of_squares_are_exact() {
    for r in [0u128, 1, 2, 3, 10, 46340, 4_294_967_295, 18_446_744_073_709_551_615] {
        assert_eq!(rounded_sqrt(r * r), r);
    }
}

#[test]
fn roots_change_half_way_between_squares() {
    for r in [1u128, 2, 7, 1000, 4_294_967_296] {
        // sqrt(r^2 + r) is below r + 1/2, sqrt(r^2 + r + 1) is above it.
        assert_eq!(rounded_sqrt(r * r + r), r);
        assert_eq!(rounded_sqrt(r * r + r + 1), r + 1);
        assert_eq!(rounded_sqrt(r * r - r + 1), r);
        assert_eq!(rounded_sqrt(r * r - r), r - 1);
    }
}

#[test]
fn root_of_the_largest_number() {
    assert_eq!(rounded_sqrt(u128::MAX), 18_446_744_073_709_551_616);
}

#[test]
fn roots_agree_with_floating_point() {
    for n in 0u128..5000 {
        assert_eq!(rounded_sqrt(n), (n as f64).sqrt().round() as u128);
    }
}
