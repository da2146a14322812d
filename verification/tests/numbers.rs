use plotpath::decimal::Decimal;
use plotpath::error::CompileError;
use plotpath::quantize::quantize;

const ONE: i128 = 1_000_000_000_000_000_000;
const LIMIT: i128 = ONE * ONE;

fn dec(text: &str) -> Decimal {
    Decimal::parse(text).expect("a numeral")
}

#[test]
fn whole_numbers_are_read() {
    assert_eq!(dec("0").raw(), 0);
    assert_eq!(dec("1").raw(), ONE);
    assert_eq!(dec("255").raw(), 255 * ONE);
    assert_eq!(dec("007").raw(), 7 * ONE);
}

#[test]
fn signs_are_read() {
    assert_eq!(dec("+3").raw(), 3 * ONE);
    assert_eq!(dec("-3").raw(), -3 * ONE);
    assert_eq!(dec("-0").raw(), 0);
}

#[test]
fn fractions_are_read() {
    assert_eq!(dec("1.5").raw(), ONE + ONE / 2);
    assert_eq!(dec(".5").raw(), ONE / 2);
    assert_eq!(dec("5.").raw(), 5 * ONE);
    assert_eq!(dec("-0.000000000000000001").raw(), -1);
    assert_eq!(dec("12.345").raw(), 12_345_000_000_000_000_000);
}

#[test]
fn digits_past_the_last_place_are_dropped() {
    assert_eq!(dec("0.0000000000000000019").raw(), 1);
    assert_eq!(dec("-0.0000000000000000019").raw(), -1);
    assert_eq!(dec("0.00000000000000000099").raw(), 0);
    assert_eq!(dec("0.3333333333333333333333333").raw(), 333_333_333_333_333_333);
}

#[test]
fn exponents_are_read() {
    assert_eq!(dec("1e3").raw(), 1000 * ONE);
    assert_eq!(dec("1E3").raw(), 1000 * ONE);
    assert_eq!(dec("1.5e+2").raw(), 150 * ONE);
    assert_eq!(dec("25e-1").raw(), 2 * ONE + ONE / 2);
    assert_eq!(dec("1e-18").raw(), 1);
    assert_eq!(dec("1e-19").raw(), 0);
    assert_eq!(dec("123456e-24").raw(), 0);
    assert_eq!(dec("1234567e-24").raw(), 1);
    assert_eq!(dec("0e99999999999999999999999999999999999999999999").raw(), 0);
    assert_eq!(dec("7e-99999999999999999999999999999999999999999999").raw(), 0);
}

#[test]
fn long_numerals_are_read() {
    assert_eq!(dec("0000000000000000000000000000000000000000000000001").raw(), ONE);
    assert_eq!(
        dec("1000000000000000000000000000000000000000000e-42").raw(),
        ONE
    );
    assert_eq!(
        dec("0.0000000000000000000000000000000000000001e40").raw(),
        ONE
    );
}

#[test]
fn numbers_beyond_the_limit_are_read_as_the_limit() {
    assert_eq!(
        dec("999999999999999999.999999999999999999").raw(),
        LIMIT - 1
    );
    assert_eq!(
        dec("-999999999999999999.999999999999999999").raw(),
        1 - LIMIT
    );
    assert_eq!(dec("1000000000000000000").raw(), LIMIT);
    assert_eq!(dec("-1000000000000000000").raw(), -LIMIT);
    assert_eq!(dec("1000000000000000000.5").raw(), LIMIT);
    assert_eq!(dec("1e18").raw(), LIMIT);
    assert_eq!(dec("1e400").raw(), LIMIT);
    assert_eq!(dec("-1e400").raw(), -LIMIT);
    assert_eq!(dec("0.0001e99999999999999999999999999999999999999999999").raw(), LIMIT);
    assert_eq!(dec("340282366920938463463374607431768211456").raw(), LIMIT);
    assert_eq!(
        dec("-99999999999999999999999999999999999999999999999999999999999999").raw(),
        -LIMIT
    );
}

#[test]
fn what_is_no_numeral_is_refused() {
    for text in [
        "", "+", "-", ".", "+.", "e5", "1e", "1e+", "1e-", "1.2.3", "1,2", "abc", "1a", " 1", "1 ",
        "--1", "+-1", "1e5.0", "inf", "NaN", "infinity", "0x10", "1_000", "１",
    ] {
        assert_eq!(Decimal::parse(text), None, "{text:?}");
    }
}

#[test]
fn differences_stay_within_the_limit() {
    assert_eq!(dec("10").saturating_sub(dec("2.5")).raw(), 7 * ONE + ONE / 2);
    assert_eq!(dec("-1").saturating_sub(dec("1")).raw(), -2 * ONE);
    assert_eq!(dec("5e17").saturating_sub(dec("-4e17")).raw(), 900_000_000_000_000_000 * ONE);
    assert_eq!(dec("5e17").saturating_sub(dec("-5e17")).raw(), LIMIT);
    assert_eq!(dec("-5e17").saturating_sub(dec("5e17")).raw(), -LIMIT);
    assert_eq!(dec("9e17").saturating_sub(dec("-9e17")).raw(), LIMIT);
    assert_eq!(dec("-1e18").saturating_sub(dec("1e18")).raw(), -LIMIT);
    assert_eq!(dec("1e18").saturating_sub(dec("1e18")).raw(), 0);
}

#[test]
fn quantize_scales_and_rounds_down() {
    assert_eq!(quantize(dec("5"), dec("10")), Ok(127));
    assert_eq!(quantize(dec("1"), dec("1")), Ok(255));
    assert_eq!(quantize(dec("1"), dec("3")), Ok(85));
    assert_eq!(quantize(dec("0.1"), dec("0.3")), Ok(85));
    assert_eq!(quantize(dec("2"), dec("3")), Ok(170));
    assert_eq!(quantize(dec("0.999"), dec("255")), Ok(0));
    assert_eq!(quantize(dec("1"), dec("255")), Ok(1));
    assert_eq!(quantize(dec("100"), dec("100.0000001")), Ok(254));
}

#[test]
fn quantize_saturates() {
    assert_eq!(quantize(dec("11"), dec("10")), Ok(255));
    assert_eq!(quantize(dec("9e17"), dec("1e-18")), Ok(255));
    assert_eq!(quantize(dec("1e18"), dec("1e18")), Ok(255));
    assert_eq!(quantize(dec("1e400"), dec("1e-18")), Ok(255));
    assert_eq!(quantize(dec("-1e400"), dec("1e-18")), Ok(0));
    assert_eq!(quantize(dec("1e17"), dec("1e18")), Ok(25));
    assert_eq!(quantize(dec("-1"), dec("10")), Ok(0));
    assert_eq!(quantize(dec("-0.000000000000000001"), dec("9e17")), Ok(0));
    assert_eq!(quantize(dec("-9e17"), dec("1e-18")), Ok(0));
}

#[test]
fn quantize_takes_a_negative_dimension() {
    assert_eq!(quantize(dec("-5"), dec("-10")), Ok(127));
    assert_eq!(quantize(dec("5"), dec("-10")), Ok(0));
    assert_eq!(quantize(dec("-20"), dec("-10")), Ok(255));
    assert_eq!(quantize(dec("0"), dec("-10")), Ok(0));
}

#[test]
fn quantize_keeps_the_origin() {
    for dimension in ["1", "10", "0.000000000000000001", "999999999999999999", "-3"] {
        assert_eq!(quantize(dec("0"), dec(dimension)), Ok(0));
    }
}

#[test]
fn quantize_stays_in_range() {
    for raw in ["-1e18", "-1", "0", "0.5", "1", "254.9", "255", "256", "1e18"] {
        for dimension in ["-1e18", "-1", "1e-18", "1", "255", "1e18"] {
            assert!(quantize(dec(raw), dec(dimension)).is_ok());
        }
    }
}

#[test]
fn quantize_refuses_a_dimension_of_zero() {
    assert_eq!(quantize(dec("5"), dec("0")), Err(CompileError::InvalidViewbox));
    assert_eq!(quantize(dec("0"), dec("0")), Err(CompileError::InvalidViewbox));
    assert_eq!(quantize(dec("-5"), dec("0.0")), Err(CompileError::InvalidViewbox));
    assert_eq!(quantize(dec("5"), dec("1e-19")), Err(CompileError::InvalidViewbox));
}

/// A small deterministic generator for the tests below.
struct Draws(u64);

impl Draws {
    fn next(&mut self, bound: u64) -> u64 {
        self.0 = self.0.wrapping_mul(6364136223846793005).wrapping_add(1442695040888963407);
        (self.0 >> 33) % bound
    }
}

#[test]
fn the_numerals_are_those_of_floating_point_literals() {
    let alphabet = b"0123456789+-.eE";
    let mut draws = Draws(7);
    for _ in 0..200_000 {
        let len = draws.next(9) as usize;
        let text: String = (0..len)
            .map(|_| alphabet[draws.next(alphabet.len() as u64) as usize] as char)
            .collect();
        assert_eq!(
            Decimal::parse(&text).is_some(),
            text.parse::<f64>().is_ok(),
            "{text:?}"
        );
    }
}

#[test]
fn numerals_are_read_as_floating_point_reads_them() {
    let mut draws = Draws(11);
    for _ in 0..50_000 {
        let mut text = String::new();
        match draws.next(3) {
            0 => text.push('-'),
            1 => text.push('+'),
            _ => {}
        }
        for _ in 0..draws.next(7) {
            text.push((b'0' + draws.next(10) as u8) as char);
        }
        if draws.next(2) == 0 || text.chars().last().map_or(true, |c| !c.is_ascii_digit()) {
            text.push('.');
            for _ in 0..1 + draws.next(7) {
                text.push((b'0' + draws.next(10) as u8) as char);
            }
        }
        if draws.next(2) == 0 {
            text.push_str(&format!("e{}", draws.next(13) as i64 - 6));
        }
        let read = Decimal::parse(&text).expect("a numeral").raw() as f64 / 1e18;
        let float: f64 = text.parse().unwrap();
        let slack = float.abs() * 1e-12 + 2e-18;
        assert!((read - float).abs() <= slack, "{text:?}: {read} and {float}");
    }
}

#[test]
fn quantize_is_the_rounded_down_quotient() {
    for raw in -40i64..=300 {
        for dimension in [-300i64, -7, -1, 1, 2, 3, 7, 10, 100, 254, 255, 256, 1000] {
            let (above, below) = if dimension > 0 {
                (255 * raw, dimension)
            } else {
                (-255 * raw, -dimension)
            };
            let expected = above.div_euclid(below).clamp(0, 255) as u8;
            assert_eq!(
                quantize(dec(&raw.to_string()), dec(&dimension.to_string())),
                Ok(expected),
                "{raw} over {dimension}"
            );
        }
    }
}
