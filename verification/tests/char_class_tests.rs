use regex::Regex;
use warm_ml::char_classes::{char_is_decimal_digit, char_is_white_space};

/// Every character: the classes agree with the `\s` and `\d` of `regex`, the
/// crate whose rule-id pattern they stand for.
#[test]
fn classes_agree_with_the_regex_crate() {
    let space = Regex::new(r"^\s$").unwrap();
    let digit = Regex::new(r"^\d$").unwrap();
    let mut buf = [0u8; 4];
    for u in 0..=0x10FFFFu32 {
        if let Some(c) = char::from_u32(u) {
            let s = c.encode_utf8(&mut buf);
            assert_eq!(char_is_white_space(c), space.is_match(s), "white space at {:#x}", u);
            assert_eq!(char_is_decimal_digit(c), digit.is_match(s), "digit at {:#x}", u);
        }
    }
}
