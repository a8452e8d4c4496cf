use oven_vision::pipeline::find_lines::choose_pair;
use oven_vision::pipeline::util::HoughLine;
use oven_vision::stage::angle::log_line;
use oven_vision::stats::{spread_of, total, widened};
use oven_vision::surd::{are_at_most, does_exceed_sum, does_reach_sum};
use oven_vision::text::{push_natural, push_ratio, push_root};
use oven_vision::wide::{Integer, Natural};

fn text(n: &Natural) -> String {
    let mut s = String::new();
    push_natural(&mut s, n);
    s
}

#[test]
fn naturals_have_no_limit() {
    let max = Natural::new(u128::MAX);
    assert_eq!(text(&max), "340282366920938463463374607431768211455");
    let square = max.times(&max);
    assert_eq!(
        text(&square),
        "115792089237316195423570985008687907852589419931798687112530834793049593217025"
    );
    assert_eq!(square.to_u128(), None);
    assert_eq!(square.square_root().to_u128(), Some(u128::MAX));
    let (q, rest) = square.plus(&Natural::new(5)).divided(&max);
    assert_eq!((q.to_u128(), rest.to_u128()), (Some(u128::MAX), Some(5)));
    assert!(max.is_less(&square) && !square.is_less(&max));
    assert_eq!(square.minus(&square).to_u128(), Some(0));
}

#[test]
fn integers_are_rounded_down() {
    let seven = Integer::new(-7);
    assert_eq!(seven.over(&Integer::new(2)).to_i128(), -4);
    assert_eq!(seven.times(&Integer::new(-3)).to_i128(), 21);
    assert_eq!(seven.minus(&Integer::new(-7)).is_negative(), false);
    assert_eq!(seven.at_least(&Integer::new(3)).to_i128(), 3);
    assert_eq!(seven.at_most(&Integer::new(3)).to_i128(), -7);
    let wide = Integer::new(i128::MAX).times(&Integer::new(-4));
    assert_eq!(wide.to_i128(), -i128::MAX);
    assert_eq!((wide.to_i64(), wide.to_pixel()), (i64::MIN, i32::MIN));
    assert_eq!(Integer::new(-2_999_999).to_pixel(), -2);
}

#[test]
fn roots_are_compared_without_rounding() {
    let n = |v: i128| Integer::new(v);
    // The root of two lies between these two fractions, which differ by less than 1e-15.
    let unit = 1_000_000_000_000_000i128;
    assert!(are_at_most(&n(2 * unit * unit), &n(0), &n(0), &n(1_414_213_562_373_096)));
    assert!(!are_at_most(&n(2 * unit * unit), &n(0), &n(0), &n(1_414_213_562_373_095)));
    assert!(are_at_most(&n(4), &n(1), &n(9), &n(0)));
    assert!(does_reach_sum(&n(25), &n(4), &n(9)));
    assert!(!does_exceed_sum(&n(25), &n(4), &n(9)));
    assert!(does_exceed_sum(&n(26), &n(4), &n(9)));
}

#[test]
fn numbers_are_rounded_once() {
    let shown = |n: i128, places: u8| {
        let mut s = String::new();
        push_ratio(&mut s, &Integer::new(n), &Integer::new(1_000_000_000), places);
        s
    };
    assert_eq!(shown(865_000_000, 2), "0.86");
    assert_eq!(shown(865_000_001, 2), "0.87");
    assert_eq!(shown(-865_000_001, 2), "-0.87");
    assert_eq!(shown(12_500_000_000, 0), "12");
    let mut s = String::new();
    push_root(&mut s, &Integer::new(2_000_000_000_000), &Integer::new(1_000_000), 3);
    assert_eq!(s, "1.414");
}

#[test]
fn sums_have_no_limit() {
    let far = widened(&vec![i64::MAX, i64::MAX, i64::MIN]);
    assert_eq!(total(&far).to_i128(), i64::MAX as i128 - 1);
    let near = widened(&vec![1, 2, 3]);
    // Three times the sum of the squares less the square of the sum.
    assert_eq!(spread_of(&near).to_i128(), 6);
    let spread = spread_of(&far);
    assert!(Integer::new(0).is_less(&spread));
}

#[test]
fn pairs_are_ranked_by_unrounded_means() {
    // The means of the two upper clusters differ by a third of a millionth.
    let line = |rho: i64| HoughLine { rho, theta: 90_000_000 };
    let low: Vec<HoughLine> = [100_000_000, 100_000_000, 100_000_001].map(line).to_vec();
    let even: Vec<HoughLine> = [100_000_000, 100_000_000, 100_000_000].map(line).to_vec();
    let rest: Vec<HoughLine> = [200_000_000, 200_000_000, 200_000_000].map(line).to_vec();
    let a = choose_pair(&[low, rest.clone()].concat(), 300, 0).unwrap();
    let b = choose_pair(&[even, rest].concat(), 300, 0).unwrap();
    assert_eq!((a.top.rho_sum, a.top.votes), (300_000_001, 3));
    assert_eq!((b.top.rho_sum, b.top.votes), (300_000_000, 3));
    assert_eq!(a.top.rho(), b.top.rho());
    // Fifteen pixels apart, but for a third of a millionth.
    let near: Vec<HoughLine> =
        [100_000_000, 100_000_000, 100_000_001, 115_000_000, 115_000_000, 115_000_000]
            .map(line)
            .to_vec();
    assert!(choose_pair(&near, 300, 0).is_err());
    let apart: Vec<HoughLine> =
        [100_000_000, 100_000_000, 100_000_000, 115_000_000, 115_000_000, 115_000_000]
            .map(line)
            .to_vec();
    assert!(choose_pair(&apart, 300, 0).is_ok());
    let nowhere: Vec<HoughLine> = [i64::MIN, i64::MAX].map(line).to_vec();
    let far = choose_pair(&nowhere, 0, 0).unwrap();
    assert_eq!((far.top.rho(), far.bot.rho()), (i64::MIN, i64::MAX));
}

#[test]
fn angle_readings_are_logged() {
    let angles = vec![0, 30_000_000];
    assert_eq!(
        log_line(2, &angles, &vec![300_000_000, 865_000_001]),
        "    knob 3: best=30\u{b0} score=0.87 gap=0.57 High"
    );
    assert_eq!(
        log_line(0, &angles, &vec![-200_000_000, -300_000_000]),
        "    knob 1: best=0\u{b0} score=-0.20 gap=0.10 Ambiguous"
    );
}
