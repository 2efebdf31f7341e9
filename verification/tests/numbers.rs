use sass_args::number::Number;

fn frac(n: i64, d: i64) -> Number {
    Number::ratio(n, d).unwrap()
}

#[test]
fn a_fraction_needs_a_denominator() {
    assert!(Number::ratio(1, 0).is_none());
    assert!(Number::ratio(0, 0).is_none());
    assert!(Number::ratio(0, 5).unwrap().is_zero());
}

#[test]
fn equal_fractions_are_the_same_number() {
    assert!(frac(1, 2).same(&frac(50, 100)));
    assert!(frac(-1, 2).same(&frac(1, -2)));
    assert!(frac(3, 1).same(&Number::from_integer(3)));
    assert!(!frac(1, 2).same(&frac(1, 3)));
}

#[test]
fn sums_differences_products_and_quotients_are_exact() {
    assert!(frac(1, 3).plus(&frac(1, 6)).same(&frac(1, 2)));
    assert!(frac(1, 3).minus(&frac(1, 2)).same(&frac(-1, 6)));
    assert!(frac(2, 3).times(&frac(3, 4)).same(&frac(1, 2)));
    assert!(frac(1, 2).over(&frac(1, 4)).unwrap().same(&Number::from_integer(2)));
    assert!(frac(1, 2).over(&frac(-1, 4)).unwrap().same(&Number::from_integer(-2)));
}

#[test]
fn a_long_chain_does_not_round() {
    let tenth = frac(1, 10);
    let mut sum = Number::from_integer(0);
    for _ in 0..10 {
        sum = sum.plus(&tenth);
    }
    assert!(sum.same(&Number::from_integer(1)));
    let third = Number::from_integer(1).over(&Number::from_integer(3)).unwrap();
    assert!(third.times(&Number::from_integer(3)).same(&Number::from_integer(1)));
}

#[test]
fn numbers_grow_past_machine_integers() {
    let big = Number::from_integer(i64::MAX);
    let square = big.times(&big);
    assert_eq!(square.to_integer(), None);
    assert_eq!(square.round(), None);
    assert_eq!(square.over(&big).unwrap().to_integer(), Some(i64::MAX));
    assert!(big.less(&square));
}

#[test]
fn division_by_zero_gives_nothing() {
    assert!(Number::from_integer(1).over(&Number::from_integer(0)).is_none());
    assert!(Number::from_integer(0).over(&frac(0, 7)).is_none());
}

#[test]
fn order_of_numbers() {
    assert!(frac(1, 3).less(&frac(1, 2)));
    assert!(!frac(1, 2).less(&frac(1, 2)));
    assert!(frac(-1, 2).less(&frac(-1, 3)));
    assert!(!frac(1, 2).less(&frac(-5, 1)));
}

#[test]
fn halves_round_up() {
    assert_eq!(frac(255, 2).round(), Some(128));
    assert_eq!(frac(1, 2).round(), Some(1));
    assert_eq!(frac(-1, 2).round(), Some(0));
    assert_eq!(frac(-3, 2).round(), Some(-1));
    assert_eq!(frac(149, 100).round(), Some(1));
    assert_eq!(frac(-151, 100).round(), Some(-2));
    assert_eq!(Number::from_integer(7).round(), Some(7));
}

#[test]
fn floor_rounds_down() {
    assert_eq!(frac(7, 2).floor().to_integer(), Some(3));
    assert_eq!(frac(-7, 2).floor().to_integer(), Some(-4));
    assert_eq!(frac(-8, 2).floor().to_integer(), Some(-4));
    assert_eq!(frac(0, 3).floor().to_integer(), Some(0));
}

#[test]
fn only_whole_numbers_are_integers() {
    assert_eq!(frac(6, 3).to_integer(), Some(2));
    assert_eq!(frac(-6, 3).to_integer(), Some(-2));
    assert_eq!(frac(7, 3).to_integer(), None);
    assert_eq!(Number::from_integer(i64::MIN).to_integer(), Some(i64::MIN));
}

#[test]
fn clamp_keeps_a_number_in_its_range() {
    assert!(frac(300, 1).clamp(0, 255).same(&Number::from_integer(255)));
    assert!(frac(-1, 2).clamp(0, 255).same(&Number::from_integer(0)));
    assert!(frac(5, 2).clamp(0, 255).same(&frac(5, 2)));
    assert!(frac(3, 2).clamp(0, 1).same(&Number::from_integer(1)));
}

#[test]
fn a_clone_is_the_same_number() {
    let x = frac(22, 7);
    assert!(x.clone().same(&x));
}

#[test]
fn numbers_are_written_in_decimal() {
    assert_eq!(Number::from_integer(0).to_text(), "0");
    assert_eq!(Number::from_integer(42).to_text(), "42");
    assert_eq!(Number::from_integer(-42).to_text(), "-42");
    assert_eq!(frac(1, 2).to_text(), "0.5");
    assert_eq!(frac(-1, 2).to_text(), "-0.5");
    assert_eq!(frac(-5, 4).to_text(), "-1.25");
    assert_eq!(frac(50, 100).to_text(), "0.5");
    assert_eq!(frac(1, 8).to_text(), "0.125");
    assert_eq!(frac(10, 4).to_text(), "2.5");
    assert_eq!(frac(101, 100).to_text(), "1.01");
}

#[test]
fn decimal_places_are_cut_off_behind_the_tenth() {
    assert_eq!(frac(1, 3).to_text(), "0.3333333333");
    assert_eq!(frac(2, 3).to_text(), "0.6666666666");
    assert_eq!(frac(1, 100_000_000_000).to_text(), "0");
    assert_eq!(frac(12_345_678_901, 10_000_000_000).to_text(), "1.2345678901");
}

#[test]
fn large_numbers_are_written_in_full() {
    let big = Number::from_integer(i64::MAX);
    assert_eq!(big.times(&big).to_text(), "85070591730234615847396907784232501249");
}
