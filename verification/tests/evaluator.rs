use mandelbrot::sample::{Position, Outcome, SCALE};
use mandelbrot::escape::{evaluate, isqrt};

#[test]
fn origin_converges() {
    // The origin never escapes, whatever the budget and radius.
    let o = evaluate(Position { re: 0, im: 0 }, 200, 2 * SCALE);
    assert_eq!(o, Outcome::Converged(0));
    let o = evaluate(Position { re: 0, im: 0 }, 1, 1);
    assert_eq!(o, Outcome::Converged(0));
}

#[test]
fn distant_point_diverges() {
    // 10 + 10i leaves radius 2.0 on the first iteration.
    let o = evaluate(Position { re: 10 * SCALE, im: 10 * SCALE }, 200, 2 * SCALE);
    assert_eq!(o, Outcome::Diverged);
    let o = evaluate(Position { re: 10 * SCALE, im: 10 * SCALE }, 1, 2 * SCALE);
    assert_eq!(o, Outcome::Diverged);
}

#[test]
fn minus_one_cycles_back_to_zero() {
    // Under c = -1 the orbit alternates 0, -1, 0, -1, ...: after an even
    // number of iterations the final value is 0 again.
    let o = evaluate(Position { re: -SCALE, im: 0 }, 200, 2 * SCALE);
    assert_eq!(o, Outcome::Converged(0));
    // After an odd number of iterations the final value is -1, modulus 1.0.
    let o = evaluate(Position { re: -SCALE, im: 0 }, 199, 2 * SCALE);
    assert_eq!(o, Outcome::Converged(SCALE));
}

#[test]
fn single_iteration_keeps_modulus() {
    // One iteration from z = 0 lands exactly on c; the reported modulus is
    // |c| rounded down to micro-units.
    let o = evaluate(Position { re: SCALE, im: 0 }, 1, 2 * SCALE);
    assert_eq!(o, Outcome::Converged(1_000_000));
    let o = evaluate(Position { re: SCALE, im: SCALE }, 1, 2 * SCALE);
    // |1 + i| = sqrt(2), in micro-units rounded down.
    assert_eq!(o, Outcome::Converged(1_414_213));
}

#[test]
fn isqrt_exact_and_rounded() {
    assert_eq!(isqrt(0), 0);
    assert_eq!(isqrt(1), 1);
    assert_eq!(isqrt(2), 1);
    assert_eq!(isqrt(3), 1);
    assert_eq!(isqrt(4), 2);
    assert_eq!(isqrt(999_999), 999);
    assert_eq!(isqrt(1_000_000), 1000);
    assert_eq!(isqrt(2_000_000_000_000), 1_414_213);
    assert_eq!(isqrt(u64::MAX), 4_294_967_295);
}
