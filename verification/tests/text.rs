use caltraind::text::{
    char_is_digit, chars_of, contains, ends_with, parse_u16, str_contains, str_ends_with,
    str_equal, str_parse_u16,
};

#[test]
fn parse_u16_agrees_with_std() {
    let samples = [
        "", "0", "7", "007", "65535", "65536", "99999", "000000000000000000065535", "+", "-", "+1",
        "-1", "++1", "+-1", "1+", " 1", "1 ", "12a", "a12", "1_000", "٣",
        "4294967296", "18446744073709551616", "+0", "+65535", "+65536",
    ];
    for s in samples {
        assert_eq!(str_parse_u16(s), s.parse::<u16>().ok(), "{:?}", s);
    }
}

#[test]
fn parse_u16_exact_values() {
    assert_eq!(str_parse_u16("802"), Some(802));
    assert_eq!(str_parse_u16("+9001"), Some(9001));
    assert_eq!(str_parse_u16("65535"), Some(65535));
    assert_eq!(str_parse_u16("65536"), None);
    assert_eq!(parse_u16(&['4', '2']), Some(42));
    assert_eq!(parse_u16(&[]), None);
}

#[test]
fn ends_with_agrees_with_std() {
    let values = ["", "a", "subtable", "ipf-st-ip-trains-subtable", "x-subtable-td-id", "é-subtable"];
    let tails = ["", "a", "subtable", "-subtable", "ipf-st-ip-trains-subtable", "é-subtable", "td-id"];
    for v in values {
        for t in tails {
            assert_eq!(str_ends_with(v, t), v.ends_with(t), "{:?} {:?}", v, t);
        }
    }
    assert!(ends_with(&['a', 'b'], &['b']));
    assert!(!ends_with(&['a', 'b'], &['a']));
}

#[test]
fn contains_agrees_with_std() {
    let values = ["", "Local", "a Local train", "Loca", "LLocal", "Baby Bullet", "BabyBullet", "ééLimitedé"];
    let pieces = ["", "Local", "Limited", "Baby Bullet", "L", "é"];
    for v in values {
        for p in pieces {
            assert_eq!(str_contains(v, p), v.contains(p), "{:?} {:?}", v, p);
        }
    }
    assert!(contains(&['a', 'b', 'c'], &['b', 'c']));
    assert!(!contains(&['a', 'b', 'c'], &['c', 'b']));
}

#[test]
fn equal_and_chars() {
    assert!(str_equal("class", "class"));
    assert!(!str_equal("class", "Class"));
    assert!(!str_equal("class", "classes"));
    assert!(str_equal("", ""));
    assert_eq!(chars_of("aé9"), vec!['a', 'é', '9']);
    assert!(char_is_digit('0') && char_is_digit('9'));
    assert!(!char_is_digit('/') && !char_is_digit(':') && !char_is_digit('٣'));
}
