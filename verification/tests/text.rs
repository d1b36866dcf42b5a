use zen::order::lex_less_of;
use zen::text::{
    chars_of, decimal_of, file_name_of, find_sub_of, lines_of, lowercase_of, parse_signed_of,
    parse_unsigned_of, signed_decimal_of, split_of, split_sub_of, string_of, strip_of, trim_of,
    without_leading_of, words_of, CharClass,
};

fn cs(s: &str) -> Vec<char> {
    s.chars().collect()
}

fn strings(v: Vec<Vec<char>>) -> Vec<String> {
    v.iter().map(|p| p.iter().collect()).collect()
}

const SAMPLES: [&str; 18] = [
    "",
    " ",
    "a",
    "a b",
    "  lead and trail \t\n",
    "a,b,,c,",
    ",",
    "line1\nline2\r\nline3\r",
    "\n",
    "\n\n",
    "x\n",
    "\r\n",
    "no newline",
    "tabs\tand\u{a0}nbsp\u{3000}wide",
    "ünï çödé",
    "a and b and c",
    " and ",
    "andand and",
];

#[test]
fn strings_and_characters_convert_both_ways() {
    for s in SAMPLES.iter() {
        assert_eq!(chars_of(s), cs(s));
        assert_eq!(string_of(&cs(s)), *s);
    }
}

#[test]
fn white_space_is_what_the_standard_library_says() {
    for code in 0..=0x10FFFFu32 {
        if let Some(c) = char::from_u32(code) {
            assert_eq!(CharClass::Whitespace.contains(c), c.is_whitespace(), "U+{:04X}", code);
            assert_eq!(CharClass::Digit.contains(c), c.is_ascii_digit(), "U+{:04X}", code);
        }
    }
}

#[test]
fn trimming_agrees_with_the_standard_library() {
    for s in SAMPLES.iter() {
        assert_eq!(string_of(&trim_of(&cs(s))), s.trim());
        assert_eq!(string_of(&strip_of(&cs(s), CharClass::Only('a'))), s.trim_matches('a'));
        assert_eq!(string_of(&without_leading_of(&cs(s), &cs("and"))), s.trim_start_matches("and"));
    }
}

#[test]
fn splitting_agrees_with_the_standard_library() {
    for s in SAMPLES.iter() {
        let expected: Vec<String> = s.split(',').map(|p| p.to_string()).collect();
        assert_eq!(strings(split_of(&cs(s), ',')), expected);
        let expected: Vec<String> = s.split(" and ").map(|p| p.to_string()).collect();
        assert_eq!(strings(split_sub_of(&cs(s), &cs(" and "))), expected);
        let expected: Vec<String> = s.lines().map(|p| p.to_string()).collect();
        assert_eq!(strings(lines_of(&cs(s))), expected);
        let expected: Vec<String> = s.split_whitespace().map(|p| p.to_string()).collect();
        assert_eq!(strings(words_of(&cs(s))), expected);
    }
}

#[test]
fn searching_agrees_with_the_standard_library() {
    let patterns = ["", "a", "and", " and ", "\n", "zz", "ü"];
    for s in SAMPLES.iter() {
        for p in patterns.iter() {
            let expected = s.find(p).map(|byte| s[..byte].chars().count());
            assert_eq!(find_sub_of(&cs(s), &cs(p)), expected, "{:?} in {:?}", p, s);
        }
    }
}

#[test]
fn lowercase_agrees_with_the_standard_library() {
    for s in ["", "ABC", "MiXeD-Case_1", "ÜNÏ", "ΣΑΣ", "İ"].iter() {
        assert_eq!(string_of(&lowercase_of(&cs(s))), s.to_lowercase());
    }
}

#[test]
fn numbers_parse_as_in_the_standard_library() {
    let samples = [
        "", "0", "7", "007", "+7", "-7", "+", "-", "+-1", "1 ", " 1", "1a", "4294967295",
        "4294967296", "18446744073709551615", "18446744073709551616", "99999999999999999999999",
        "-0", "+0", "2147483647", "-2147483648", "-2147483649", "9223372036854775807",
        "-9223372036854775808", "9223372036854775808", "-9223372036854775809", "١٢٣",
    ];
    for s in samples.iter() {
        assert_eq!(
            parse_unsigned_of(&cs(s), u32::MAX as u64),
            s.parse::<u32>().ok().map(|n| n as u64),
            "{:?} as u32",
            s
        );
        assert_eq!(parse_unsigned_of(&cs(s), u64::MAX), s.parse::<u64>().ok(), "{:?} as u64", s);
        assert_eq!(
            parse_signed_of(&cs(s), i64::MIN as i128, i64::MAX as i128),
            s.parse::<i64>().ok().map(|n| n as i128),
            "{:?} as i64",
            s
        );
        assert_eq!(
            parse_signed_of(&cs(s), i32::MIN as i128, i32::MAX as i128),
            s.parse::<i32>().ok().map(|n| n as i128),
            "{:?} as i32",
            s
        );
    }
}

#[test]
fn numbers_are_written_as_in_the_standard_library() {
    for n in [0u64, 1, 9, 10, 11, 99, 100, 12345, u32::MAX as u64, u64::MAX] {
        assert_eq!(string_of(&decimal_of(n)), n.to_string());
    }
    for n in [0i128, 1, -1, 10, -10, i64::MAX as i128, i64::MIN as i128] {
        assert_eq!(string_of(&signed_decimal_of(n)), n.to_string());
    }
}

#[test]
fn text_order_agrees_with_the_standard_library() {
    for a in SAMPLES.iter() {
        for b in SAMPLES.iter() {
            assert_eq!(lex_less_of(&cs(a), &cs(b)), a < b, "{:?} < {:?}", a, b);
        }
    }
}

#[test]
fn file_names_of_paths() {
    let cases = [
        ("/usr/bin/", Some("bin")),
        ("tmp/foo.txt", Some("foo.txt")),
        ("foo.txt/.", Some("foo.txt")),
        ("foo.txt/.//", Some("foo.txt")),
        ("foo.txt/..", None),
        ("/", None),
        ("", None),
        (".", None),
        ("..", None),
        ("./", None),
        ("./foo", Some("foo")),
        ("a/../b", Some("b")),
        ("//a//b//", Some("b")),
        ("...", Some("...")),
        (".hidden", Some(".hidden")),
    ];
    for (path, expected) in cases.iter() {
        assert_eq!(file_name_of(path), expected.map(|e| e.to_string()), "{:?}", path);
    }
}
