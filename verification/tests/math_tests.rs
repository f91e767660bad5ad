use platformer_core::math::{dist, isqrt, muldiv, scale_toward, Vec2};

#[test]
fn isqrt_exact_values() {
    assert_eq!(isqrt(0), 0);
    assert_eq!(isqrt(1), 1);
    assert_eq!(isqrt(3), 1);
    assert_eq!(isqrt(4), 2);
    assert_eq!(isqrt(24), 4);
    assert_eq!(isqrt(25), 5);
    assert_eq!(isqrt(8_000_000_000_000), 2_828_427);
    assert_eq!(isqrt(u64::MAX), 4_294_967_295);
}

#[test]
fn dist_is_rounded_euclidean() {
    assert_eq!(dist(Vec2 { x: 0, y: 0 }, Vec2 { x: 3, y: 4 }), 5);
    assert_eq!(dist(Vec2 { x: -3, y: -4 }, Vec2 { x: 0, y: 0 }), 5);
    assert_eq!(dist(Vec2 { x: 0, y: 0 }, Vec2 { x: 1, y: 1 }), 1);
    assert_eq!(dist(Vec2 { x: 7, y: 9 }, Vec2 { x: 7, y: 9 }), 0);
    assert_eq!(
        dist(Vec2 { x: -1_000_000, y: -1_000_000 }, Vec2 { x: 1_000_000, y: 1_000_000 }),
        2_828_427
    );
}

#[test]
fn muldiv_truncates_toward_zero() {
    assert_eq!(muldiv(7, 3, 2), 10);
    assert_eq!(muldiv(-7, 3, 2), -10);
    assert_eq!(muldiv(7, -3, 2), -10);
    assert_eq!(muldiv(-7, -3, 2), 10);
    assert_eq!(muldiv(1, 1, 1000), 0);
    assert_eq!(muldiv(5_000_000, 100_000_000_000, 1000), 500_000_000_000_000);
}

#[test]
fn scale_toward_is_componentwise() {
    let r = scale_toward(Vec2 { x: 300, y: -400 }, 100_000, 500);
    assert_eq!(r, Vec2 { x: 60_000, y: -80_000 });
    let r2 = scale_toward(Vec2 { x: 500, y: 0 }, -7, 500);
    assert_eq!(r2, Vec2 { x: -7, y: 0 });
}
