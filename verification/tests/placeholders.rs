use sb_dice::decimal::{parse_placeholder, placeholder};

#[test]
fn the_first_placeholders() {
    assert_eq!(placeholder(0), "0");
    assert_eq!(placeholder(1), "1");
    assert_eq!(placeholder(9), "9");
    assert_eq!(placeholder(10), "10");
    assert_eq!(placeholder(11), "11");
    assert_eq!(placeholder(99), "99");
    assert_eq!(placeholder(100), "100");
    assert_eq!(placeholder(1234567890), "1234567890");
}

#[test]
fn a_placeholder_is_the_decimal_numeral_of_its_index() {
    for index in 0..2000usize {
        assert_eq!(placeholder(index), index.to_string());
    }
    assert_eq!(placeholder(usize::MAX), usize::MAX.to_string());
}

#[test]
fn placeholders_of_different_indices_differ() {
    let texts: Vec<String> = (0..300usize).map(placeholder).collect();
    for i in 0..texts.len() {
        for j in 0..i {
            assert_ne!(texts[i], texts[j]);
        }
    }
}

#[test]
fn a_placeholder_reads_back_as_its_index() {
    for index in 0..2000usize {
        assert_eq!(parse_placeholder(&placeholder(index)), Some(index));
    }
    assert_eq!(parse_placeholder(&placeholder(usize::MAX)), Some(usize::MAX));
    assert_eq!(parse_placeholder(&placeholder(usize::MAX - 1)), Some(usize::MAX - 1));
}

#[test]
fn what_is_no_numeral_is_no_placeholder() {
    assert_eq!(parse_placeholder(""), None);
    assert_eq!(parse_placeholder("00"), None);
    assert_eq!(parse_placeholder("01"), None);
    assert_eq!(parse_placeholder("007"), None);
    assert_eq!(parse_placeholder("-1"), None);
    assert_eq!(parse_placeholder("+1"), None);
    assert_eq!(parse_placeholder("1 "), None);
    assert_eq!(parse_placeholder(" 1"), None);
    assert_eq!(parse_placeholder("12a"), None);
    assert_eq!(parse_placeholder("a12"), None);
    assert_eq!(parse_placeholder("1.0"), None);
    assert_eq!(parse_placeholder("hello"), None);
    assert_eq!(parse_placeholder("\u{0661}"), None);
    assert_eq!(parse_placeholder("1\u{00e9}"), None);
}

#[test]
fn a_numeral_beyond_every_index_is_no_placeholder() {
    let beyond = format!("{}0", usize::MAX);
    assert_eq!(parse_placeholder(&beyond), None);
    let mut next = usize::MAX.to_string().into_bytes();
    let last = next.len() - 1;
    // usize::MAX ends in 5 on 32 and on 64 bits
    assert_eq!(next[last], b'5');
    next[last] = b'6';
    assert_eq!(parse_placeholder(&String::from_utf8(next).unwrap()), None);
    assert_eq!(parse_placeholder("99999999999999999999999999999999999999999999999999"), None);
}

#[test]
fn single_digits_read_as_themselves() {
    let digits = ["0", "1", "2", "3", "4", "5", "6", "7", "8", "9"];
    for (value, text) in digits.iter().enumerate() {
        assert_eq!(parse_placeholder(text), Some(value));
    }
}
