use stacklang::number::{render_u64, Number, DEN_LIMIT, NUM_LIMIT};

#[test]
fn from_int_has_denominator_one() {
    assert_eq!(Number::from_int(9), Number { num: 9, den: 1 });
    assert_eq!(Number::from_int(-9), Number { num: -9, den: 1 });
}

#[test]
fn new_keeps_in_range_fractions() {
    assert_eq!(Number::new(7, 2), Number { num: 7, den: 2 });
}

#[test]
fn new_with_zero_denominator_saturates() {
    assert_eq!(Number::new(5, 0), Number { num: NUM_LIMIT, den: 1 });
    assert_eq!(Number::new(-5, 0), Number { num: -NUM_LIMIT, den: 1 });
}

#[test]
fn addition_uses_common_denominator() {
    let a = Number { num: 1, den: 2 };
    let b = Number { num: 1, den: 3 };
    assert_eq!(a.add(b), Number { num: 5, den: 6 });
}

#[test]
fn subtraction_can_go_negative() {
    let a = Number { num: 1, den: 2 };
    let b = Number { num: 2, den: 2 };
    assert_eq!(a.sub(b), Number { num: -2, den: 4 });
}

#[test]
fn multiplication_multiplies_parts() {
    let a = Number { num: 3, den: 4 };
    let b = Number { num: 5, den: 7 };
    assert_eq!(a.mul(b), Number { num: 15, den: 28 });
}

#[test]
fn division_inverts_the_divisor() {
    let a = Number { num: 3, den: 4 };
    let b = Number { num: 5, den: 7 };
    assert_eq!(a.div(b), Number { num: 21, den: 20 });
}

#[test]
fn division_by_negative_keeps_denominator_positive() {
    let a = Number { num: 3, den: 1 };
    let b = Number { num: -2, den: 1 };
    assert_eq!(a.div(b), Number { num: -3, den: 2 });
}

#[test]
fn overflowing_addition_saturates() {
    let a = Number { num: NUM_LIMIT, den: 1 };
    let b = Number { num: NUM_LIMIT, den: 1 };
    assert_eq!(a.add(b), Number { num: NUM_LIMIT, den: 1 });
}

#[test]
fn overflowing_negative_sum_saturates_low() {
    let a = Number { num: -NUM_LIMIT, den: 1 };
    let b = Number { num: NUM_LIMIT, den: 1 };
    assert_eq!(a.sub(b), Number { num: -NUM_LIMIT, den: 1 });
}

#[test]
fn overflowing_denominator_saturates() {
    let a = Number { num: 1, den: DEN_LIMIT };
    let b = Number { num: 1, den: DEN_LIMIT };
    assert_eq!(a.mul(b), Number { num: NUM_LIMIT, den: 1 });
}

#[test]
fn renders_digits() {
    assert_eq!(render_u64(0), b"0".to_vec());
    assert_eq!(render_u64(7), b"7".to_vec());
    assert_eq!(render_u64(1203), b"1203".to_vec());
}

#[test]
fn renders_whole_numbers_without_denominator() {
    assert_eq!(Number { num: 42, den: 1 }.render(), b"42".to_vec());
    assert_eq!(Number { num: -42, den: 1 }.render(), b"-42".to_vec());
    assert_eq!(Number { num: 0, den: 1 }.render(), b"0".to_vec());
}

#[test]
fn renders_decimals_when_the_denominator_divides_a_power_of_ten() {
    assert_eq!(Number { num: 35, den: 10 }.render(), b"3.5".to_vec());
    assert_eq!(Number { num: 5, den: 10 }.render(), b"0.5".to_vec());
    assert_eq!(Number { num: 4567, den: 100 }.render(), b"45.67".to_vec());
    assert_eq!(Number { num: 50, den: 10 }.render(), b"5.0".to_vec());
    assert_eq!(Number { num: -105, den: 100 }.render(), b"-1.05".to_vec());
    assert_eq!(Number { num: -7, den: 2 }.render(), b"-3.5".to_vec());
    assert_eq!(Number { num: 7, den: 4 }.render(), b"1.75".to_vec());
    assert_eq!(Number { num: 1, den: 5 }.render(), b"0.2".to_vec());
}

#[test]
fn renders_other_fractions_with_slash() {
    // a denominator with a prime factor other than two or five has no
    // finite decimal form
    assert_eq!(Number { num: 1, den: 3 }.render(), b"1/3".to_vec());
    assert_eq!(Number { num: -5, den: 6 }.render(), b"-5/6".to_vec());
}

#[test]
fn renders_zero_without_its_denominator() {
    assert_eq!(Number { num: 0, den: 3 }.render(), b"0".to_vec());
}
