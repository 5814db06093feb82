use parallel_factorial::bignum::Accumulator;

#[test]
fn accumulator_renders_what_it_was_made_from() {
    assert_eq!(Accumulator::from_u64(5).to_decimal_string(), "5");
    assert_eq!(Accumulator::from_u64(1234567890).to_decimal_string(), "1234567890");
    assert_eq!(Accumulator::from_u64(u64::MAX).to_decimal_string(), "18446744073709551615");
}

#[test]
fn zero_and_one_render_as_themselves() {
    assert_eq!(Accumulator::from_u64(0).to_decimal_string(), "0");
    assert_eq!(Accumulator::from_u64(1).to_decimal_string(), "1");
}

#[test]
fn multiplication_by_a_machine_integer_is_in_place() {
    let mut acc = Accumulator::from_u64(6);
    acc.multiply_by_u64(7);
    assert_eq!(acc.to_decimal_string(), "42");
    acc.multiply_by_u64(1);
    assert_eq!(acc.to_decimal_string(), "42");
    acc.multiply_by_u64(0);
    assert_eq!(acc.to_decimal_string(), "0");
}

#[test]
fn multiplication_by_an_accumulator_is_in_place() {
    let mut acc = Accumulator::from_u64(6);
    acc.multiply_by(Accumulator::from_u64(7));
    assert_eq!(acc.to_decimal_string(), "42");
    acc.multiply_by(Accumulator::from_u64(1));
    assert_eq!(acc.to_decimal_string(), "42");
}

#[test]
fn multiplication_does_not_overflow() {
    let mut acc = Accumulator::from_u64(u64::MAX);
    acc.multiply_by_u64(u64::MAX);
    assert_eq!(acc.to_decimal_string(), "340282366920938463426481119284349108225");
    let mut square = Accumulator::from_u64(u64::MAX);
    square.multiply_by(Accumulator::from_u64(u64::MAX));
    acc.multiply_by(square);
    assert_eq!(
        acc.to_decimal_string(),
        "115792089237316195398462578067141184799968521174335529155754622898352762650625"
    );
}

#[test]
fn multiplication_past_one_word_keeps_every_digit() {
    let mut acc = Accumulator::from_u64(10_000_000_000);
    acc.multiply_by_u64(10_000_000_000);
    assert_eq!(acc.to_decimal_string(), "100000000000000000000");
    acc.multiply_by_u64(3);
    assert_eq!(acc.to_decimal_string(), "300000000000000000000");
}
