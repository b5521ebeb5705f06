use rlm::text::{
    char_is_whitespace, chars_of, decimal_chars, parse_u32, parse_u64, split_lines, split_words,
    string_of, trimmed,
};

fn text(s: &[char]) -> String {
    s.iter().collect()
}

const SAMPLES: [&str; 24] = [
    "",
    " ",
    "\n",
    "\r\n",
    "a",
    "  a  ",
    "\t a b\u{a0}c \u{3000}",
    "one\ntwo\n",
    "one\ntwo",
    "one\r\ntwo\r\n",
    "one\r",
    "\rone\r\n\r\n\r",
    "\n\none\n\n",
    "8:0 rbps=1 wbps=2\n8:16 rbps=max\n",
    "Uid:\t1000\t1000\n",
    "  multiple   spaces\there\u{2028}and\u{85}there ",
    "naïve café\n",
    "\u{1680}x\u{2000}y\u{200a}z\u{202f}\u{205f}",
    "x\u{200b}y",
    "\u{b}\u{c}",
    "max 100000",
    "a\n\rb",
    "trailing\n ",
    "🙂 emoji\n🙂",
];

#[test]
fn whitespace_is_the_unicode_property() {
    for code in 0..=0x10FFFFu32 {
        if let Some(c) = char::from_u32(code) {
            assert_eq!(char_is_whitespace(c), c.is_whitespace(), "U+{:04X}", code);
        }
    }
}

#[test]
fn trimming_lines_and_words() {
    for s in SAMPLES {
        let chars = chars_of(s);
        assert_eq!(string_of(&chars), s);
        assert_eq!(text(trimmed(&chars)), s.trim(), "trim of {:?}", s);
        let lines: Vec<String> = split_lines(&chars).iter().map(|l| text(l)).collect();
        let expected: Vec<String> = s.lines().map(String::from).collect();
        assert_eq!(lines, expected, "lines of {:?}", s);
        let words: Vec<String> = split_words(&chars).iter().map(|w| text(w)).collect();
        let expected: Vec<String> = s.split_whitespace().map(String::from).collect();
        assert_eq!(words, expected, "words of {:?}", s);
    }
}

#[test]
fn numerals() {
    for s in [
        "0",
        "7",
        "007",
        "4294967295",
        "4294967296",
        "18446744073709551615",
        "18446744073709551616",
        "99999999999999999999999",
        "000000000000000000000000000001",
        "",
        "-1",
        "1a",
        " 1",
        "1 ",
        "١",
        "1_000",
        "0x10",
    ] {
        let chars = chars_of(s);
        assert_eq!(parse_u64(&chars), s.parse::<u64>().ok(), "u64 of {:?}", s);
        assert_eq!(parse_u32(&chars), s.parse::<u32>().ok(), "u32 of {:?}", s);
    }
    // A sign is no part of a numeral.
    assert_eq!(parse_u64(&chars_of("+1")), None);
    assert_eq!(parse_u32(&chars_of("+1")), None);
    for n in [0u64, 1, 9, 10, 11, 99, 100, 12345, u32::MAX as u64, u64::MAX - 1, u64::MAX] {
        assert_eq!(text(&decimal_chars(n)), n.to_string());
        assert_eq!(parse_u64(&decimal_chars(n)), Some(n));
    }
}
