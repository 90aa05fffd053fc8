use batch_image_resizer::number::{parse_i32, parse_u32, u32_to_decimal};

#[test]
fn decimal_writing() {
    assert_eq!(u32_to_decimal(0), "0");
    assert_eq!(u32_to_decimal(7), "7");
    assert_eq!(u32_to_decimal(120), "120");
    assert_eq!(u32_to_decimal(4294967295), "4294967295");
}

#[test]
fn decimal_round_trip() {
    for n in [0u32, 1, 9, 10, 99, 100, 65535, 4294967295] {
        assert_eq!(parse_u32(&u32_to_decimal(n)), Some(n));
    }
}

#[test]
fn parse_u32_like_std() {
    for s in ["", "+", "-", "+12", "-1", "007", "12a", "4294967295", "4294967296", "99999999999999999999", " 1", "١"] {
        assert_eq!(parse_u32(s), s.parse::<u32>().ok(), "input {:?}", s);
    }
}

#[test]
fn parse_i32_like_std() {
    for s in ["", "+", "-", "+5", "-0", "-2147483648", "-2147483649", "2147483647", "2147483648", "--1", "85"] {
        assert_eq!(parse_i32(s), s.parse::<i32>().ok(), "input {:?}", s);
    }
}
