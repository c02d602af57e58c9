use zalgo::parse::parse_count;
use zalgo::{parse_intensity, parse_rng, IntErrorKind, Intensity, ParseError, RngChoice};

fn count_of(text: &str) -> Result<usize, IntErrorKind> {
    let chars: Vec<char> = text.chars().collect();
    parse_count(&chars, 0, chars.len())
}

#[test]
fn policies_by_name() {
    assert_eq!(parse_intensity("mini"), Ok(Intensity::Mini));
    assert_eq!(parse_intensity("normal"), Ok(Intensity::Normal));
    assert_eq!(parse_intensity("maxi"), Ok(Intensity::Maxi));
    assert_eq!(parse_intensity("random"), Ok(Intensity::Random));
}

#[test]
fn policies_of_exact_counts() {
    assert_eq!(
        parse_intensity("custom(1,2,3)"),
        Ok(Intensity::Custom { up: 1, middle: 2, down: 3 })
    );
    assert_eq!(
        parse_intensity("custom( 10 ,\t0, 007 )"),
        Ok(Intensity::Custom { up: 10, middle: 0, down: 7 })
    );
    assert_eq!(
        parse_intensity("custom(+1,+2,+3)"),
        Ok(Intensity::Custom { up: 1, middle: 2, down: 3 })
    );
    assert_eq!(
        parse_intensity("custom(\u{a0}1\u{3000},\u{2003}2,3\u{85})"),
        Ok(Intensity::Custom { up: 1, middle: 2, down: 3 })
    );
    let max = usize::MAX;
    assert_eq!(
        parse_intensity(&format!("custom({},0,{})", max, max)),
        Ok(Intensity::Custom { up: max, middle: 0, down: max })
    );
}

#[test]
fn texts_that_are_no_policy() {
    for text in [
        "",
        "Mini",
        "mini ",
        " mini",
        "minimal",
        "custom",
        "custom(",
        "custom(1,2,3",
        "custom(1,2,3) ",
        "custom[1,2,3]",
        "Custom(1,2,3)",
        "custom(1,2)",
        "custom(1)",
        "custom(1,2,3,4)",
        "custom(1,2,3,)",
        "custom(1,2,3,x)",
    ] {
        assert_eq!(parse_intensity(text), Err(ParseError::ParseIntensity(text.to_string())));
    }
}

#[test]
fn fields_that_are_no_count() {
    let int = |field: &str, kind| Err(ParseError::ParseInt(field.to_string(), kind));
    assert_eq!(parse_intensity("custom()"), int("", IntErrorKind::Empty));
    assert_eq!(parse_intensity("custom(  )"), int("", IntErrorKind::Empty));
    assert_eq!(parse_intensity("custom(,2,3)"), int("", IntErrorKind::Empty));
    assert_eq!(parse_intensity("custom(1,,3)"), int("", IntErrorKind::Empty));
    assert_eq!(parse_intensity("custom(1,2,)"), int("", IntErrorKind::Empty));
    assert_eq!(parse_intensity("custom(a,2,3)"), int("a", IntErrorKind::InvalidDigit));
    assert_eq!(parse_intensity("custom(1, b2 ,3)"), int("b2", IntErrorKind::InvalidDigit));
    assert_eq!(parse_intensity("custom(1,2,3c)"), int("3c", IntErrorKind::InvalidDigit));
    assert_eq!(parse_intensity("custom(-1,2,3)"), int("-1", IntErrorKind::InvalidDigit));
    assert_eq!(parse_intensity("custom(+,2,3)"), int("+", IntErrorKind::InvalidDigit));
    assert_eq!(parse_intensity("custom(1 2,3,4)"), int("1 2", IntErrorKind::InvalidDigit));
    assert_eq!(parse_intensity("custom(1.5,3,4)"), int("1.5", IntErrorKind::InvalidDigit));
    assert_eq!(
        parse_intensity("custom(1,99999999999999999999999999,3)"),
        int("99999999999999999999999999", IntErrorKind::PosOverflow)
    );
    // A field that is no count is reported before a missing field behind it.
    assert_eq!(parse_intensity("custom(x)"), int("x", IntErrorKind::InvalidDigit));
    assert_eq!(parse_intensity("custom(1,x)"), int("x", IntErrorKind::InvalidDigit));
    // The first field that is no count is the one reported.
    assert_eq!(parse_intensity("custom(x,y,z)"), int("x", IntErrorKind::InvalidDigit));
}

#[test]
fn counts_read_as_the_standard_library_reads_them() {
    let max = usize::MAX.to_string();
    let samples = [
        "",
        "0",
        "7",
        "42",
        "+42",
        "+0",
        "+",
        "-",
        "-0",
        "-42",
        "++1",
        "+-1",
        "007",
        "1a",
        "a1",
        " 1",
        "1 ",
        "1_000",
        "0x10",
        "\u{661}",
        "18446744073709551615",
        "18446744073709551616",
        "18446744073709551620",
        "99999999999999999999",
        "99999999999999999999x",
        "9999999999999999999x9",
        "x99999999999999999999",
        "4294967295",
        "4294967296",
        max.as_str(),
    ];
    for text in samples {
        let wanted = match text.parse::<usize>() {
            Ok(n) => Ok(n),
            Err(error) => Err(match error.kind() {
                std::num::IntErrorKind::Empty => IntErrorKind::Empty,
                std::num::IntErrorKind::InvalidDigit => IntErrorKind::InvalidDigit,
                std::num::IntErrorKind::PosOverflow => IntErrorKind::PosOverflow,
                other => panic!("unexpected kind {:?}", other),
            }),
        };
        assert_eq!(count_of(text), wanted);
    }
    assert_eq!(count_of("18446744073709551615").is_ok(), usize::MAX as u128 >= u64::MAX as u128);
}

#[test]
fn counts_inside_a_longer_text() {
    let chars: Vec<char> = "ab123cd".chars().collect();
    assert_eq!(parse_count(&chars, 2, 5), Ok(123));
    assert_eq!(parse_count(&chars, 2, 2), Err(IntErrorKind::Empty));
    assert_eq!(parse_count(&chars, 1, 5), Err(IntErrorKind::InvalidDigit));
    assert_eq!(parse_count(&chars, 4, 6), Err(IntErrorKind::InvalidDigit));
    assert_eq!(parse_count(&chars, 4, 5), Ok(3));
}

#[test]
fn generators_by_name() {
    assert_eq!(parse_rng("chacha"), Ok(RngChoice::ChaCha));
    assert_eq!(parse_rng("isaac"), Ok(RngChoice::Isaac));
    assert_eq!(parse_rng("isaac64"), Ok(RngChoice::Isaac64));
    assert_eq!(parse_rng("jitter"), Ok(RngChoice::Jitter));
    assert_eq!(parse_rng("os"), Ok(RngChoice::Os));
    assert_eq!(parse_rng("std"), Ok(RngChoice::Std));
    assert_eq!(parse_rng("thread"), Ok(RngChoice::Thread));
    assert_eq!(parse_rng("xorshift"), Ok(RngChoice::XorShift));
    for text in ["", "ChaCha", "isaac6", "isaac640", "thread ", "random", "xor"] {
        assert_eq!(parse_rng(text), Err(ParseError::ParseRng(text.to_string())));
    }
}
