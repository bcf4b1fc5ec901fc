use campman::text::{
    chars_of, decimal_text, is_whitespace, join_texts, parse_unsigned, split_text, string_of,
    trim_text,
};

fn strings(texts: &[&str]) -> Vec<String> {
    texts.iter().map(|t| t.to_string()).collect()
}

const SAMPLES: [&str; 22] = [
    "",
    " ",
    ":",
    "::",
    "a",
    "a:b",
    "a:b:c",
    ":a",
    "a:",
    " a : b ",
    "Gandalf the Grey: 25",
    "Orc: 12: 7",
    "\t tabs and\nnewlines \r\n",
    "\u{a0}no-break\u{a0}",
    "\u{2003}em space\u{3000}",
    "\u{200b}zero width is no space\u{200b}",
    "ünïcödé: 3",
    "+12",
    "-12",
    "007",
    "65535",
    "65536",
];

#[test]
fn whitespace_is_what_std_calls_whitespace() {
    for n in 0..=0x10ffffu32 {
        if let Some(c) = char::from_u32(n) {
            assert_eq!(is_whitespace(c), c.is_whitespace(), "U+{:04X}", n);
        }
    }
}

#[test]
fn trim_agrees_with_std() {
    for s in SAMPLES {
        assert_eq!(trim_text(s), s.trim(), "{:?}", s);
    }
    assert_eq!(trim_text("  x y  "), "x y");
    assert_eq!(trim_text("   "), "");
}

#[test]
fn split_agrees_with_std() {
    for s in SAMPLES {
        for sep in [':', '#', ' '] {
            let expected: Vec<String> = s.split(sep).map(|p| p.to_string()).collect();
            assert_eq!(split_text(s, sep), expected, "{:?} at {:?}", s, sep);
        }
    }
    assert_eq!(split_text("", ':'), strings(&[""]));
    assert_eq!(split_text("a::b:", ':'), strings(&["a", "", "b", ""]));
}

#[test]
fn join_agrees_with_std_and_undoes_split() {
    for s in SAMPLES {
        let pieces = split_text(s, ':');
        assert_eq!(join_texts(&pieces, pieces.len(), ':'), s);
        for count in 0..=pieces.len() {
            assert_eq!(join_texts(&pieces, count, ':'), pieces[..count].join(":"));
        }
    }
    assert_eq!(join_texts(&strings(&["a", "b", "c"]), 2, ':'), "a:b");
    assert_eq!(join_texts(&strings(&[]), 0, ':'), "");
}

#[test]
fn parse_unsigned_agrees_with_std() {
    let numbers = [
        "", "+", "-", "0", "+0", "-0", "7", "+7", "007", "255", "256", "65535", "65536", " 1",
        "1 ", "1a", "a1", "++1", "1+", "٣", "１２", "18446744073709551615",
        "18446744073709551616", "99999999999999999999999", "000000000000000000000000001",
    ];
    for s in numbers {
        assert_eq!(parse_unsigned(s, 0xff), s.parse::<u8>().ok().map(u64::from), "{:?}", s);
        assert_eq!(parse_unsigned(s, 0xffff), s.parse::<u16>().ok().map(u64::from), "{:?}", s);
        assert_eq!(parse_unsigned(s, u64::MAX), s.parse::<u64>().ok(), "{:?}", s);
    }
    assert_eq!(parse_unsigned("12", 11), None);
    assert_eq!(parse_unsigned("12", 12), Some(12));
    assert_eq!(parse_unsigned("7", 5), None);
    assert_eq!(parse_unsigned("0", 0), Some(0));
}

#[test]
fn decimal_text_agrees_with_std_and_is_read_back() {
    for n in [0u64, 1, 9, 10, 11, 99, 100, 255, 256, 65535, 1234567890, u64::MAX] {
        assert_eq!(decimal_text(n), n.to_string());
        assert_eq!(parse_unsigned(&decimal_text(n), u64::MAX), Some(n));
    }
}

#[test]
fn chars_and_strings_convert_both_ways() {
    for s in SAMPLES {
        let chars = chars_of(s);
        assert_eq!(chars, s.chars().collect::<Vec<char>>());
        assert_eq!(string_of(&chars, 0, chars.len()), s);
    }
    let chars = chars_of("hello");
    assert_eq!(string_of(&chars, 1, 3), "el");
    assert_eq!(string_of(&chars, 2, 2), "");
}
