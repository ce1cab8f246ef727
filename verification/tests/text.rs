use astral_rust_core::text::{
    chars_of, decimal_string, find_chars, lex_less, parse_u16, string_from_chars, trim_chars,
};

fn chars(s: &str) -> Vec<char> {
    s.chars().collect()
}

#[test]
fn decimal_strings() {
    assert_eq!(decimal_string(0), "0");
    assert_eq!(decimal_string(25565), "25565");
    assert_eq!(decimal_string(u64::MAX), "18446744073709551615");
}

#[test]
fn u16_parsing() {
    assert_eq!(parse_u16(&chars("0")), Some(0));
    assert_eq!(parse_u16(&chars("+65535")), Some(65535));
    assert_eq!(parse_u16(&chars("65536")), None);
    assert_eq!(parse_u16(&chars("+")), None);
    assert_eq!(parse_u16(&chars("")), None);
    assert_eq!(parse_u16(&chars(" 1")), None);
    assert_eq!(parse_u16(&chars("0000000000000000000042")), Some(42));
    assert_eq!(parse_u16(&chars("９")), None);
}

#[test]
fn trimming_matches_str_trim() {
    for s in ["  a b  ", "\u{3000}x\u{85}", "", "   ", "\u{200b}y", "\tz\r\n"] {
        assert_eq!(trim_chars(&chars(s)), chars(s.trim()));
    }
}

#[test]
fn find_first_occurrence() {
    assert_eq!(find_chars(&chars("abcabc"), &chars("bc")), Some(1));
    assert_eq!(find_chars(&chars("abc"), &chars("abcd")), None);
    assert_eq!(find_chars(&chars("abc"), &chars("")), Some(0));
}

#[test]
fn ordering_matches_str_order() {
    let words = ["", "a", "ab", "b", "Z", "é", "minecraft_motd", "minecraft"];
    for a in words {
        for b in words {
            assert_eq!(lex_less(&chars(a), &chars(b)), a < b, "{} < {}", a, b);
        }
    }
}

#[test]
fn chars_round_trip() {
    let s = "héllo 世界";
    assert_eq!(string_from_chars(&chars_of(s)), s);
}
