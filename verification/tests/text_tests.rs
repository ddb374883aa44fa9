use indus::text::{chars_of, is_whitespace, parse_i16_range, push_i16_text, same_text, split_ranges, trim_range, trim_str};

fn parse(s: &str) -> Option<i16> {
    let v = chars_of(s);
    parse_i16_range(&v, 0, v.len())
}

#[test]
fn parse_i16_matches_std() {
    let cases = [
        "0", "7", "11", "+11", "-11", "007", "-0", "+", "-", "", " 1", "1 ", "32767", "32768",
        "-32768", "-32769", "99999999999", "1a", "a1", "--1", "+-1", "١", "12,", "00032767",
    ];
    for c in cases.iter() {
        assert_eq!(parse(c), c.parse::<i16>().ok(), "case {:?}", c);
    }
}

#[test]
fn i16_text_matches_std() {
    for i in [0i16, 1, 9, 10, 11, 99, 100, 12345, 32767, -1, -10, -32768].iter() {
        let mut s = String::new();
        push_i16_text(&mut s, *i);
        assert_eq!(s, i.to_string());
    }
    let mut s = String::from("grade ");
    push_i16_text(&mut s, -42);
    assert_eq!(s, "grade -42");
}

#[test]
fn whitespace_matches_std() {
    for code in 0u32..0x3100 {
        if let Some(c) = char::from_u32(code) {
            assert_eq!(is_whitespace(c), c.is_whitespace(), "char {:x}", code);
        }
    }
}

#[test]
fn trim_matches_std() {
    for s in ["", "  ", " a ", "\ta b\n", "\u{3000}x\u{a0}", "abc", "a  "].iter() {
        assert_eq!(trim_str(s), s.trim());
    }
    let v = chars_of("  ab c  ");
    assert_eq!(trim_range(&v, 0, v.len()), (2, 6));
    assert_eq!(trim_range(&v, 0, 2), (2, 2));
}

#[test]
fn split_matches_std() {
    for s in ["", ",", "a,b", "a,,b,", "C1 - English, C2 - Physics", "abc"].iter() {
        let v = chars_of(s);
        let pieces: Vec<String> = split_ranges(&v, 0, v.len(), ',')
            .iter()
            .map(|(a, b)| v[*a..*b].iter().collect())
            .collect();
        let expected: Vec<String> = s.split(',').map(|p| p.to_string()).collect();
        assert_eq!(pieces, expected);
    }
}

#[test]
fn same_text_compares_characters() {
    assert!(same_text("Économie", "Économie"));
    assert!(!same_text("Economics", "economics"));
    assert!(!same_text("Art", "Arts"));
}
