use plc_decoder::frames::{chars_of, extract_and_clean_hex_strings, hex_digit};
use regex::Regex;

fn with_regex(text: &str) -> Vec<String> {
    let pattern = Regex::new(r"@04([0-9A-Fa-f]+)01@|@04([0-9A-Fa-f]+)02@").unwrap();
    let mut found = Vec::new();
    for cap in pattern.captures_iter(text) {
        if let Some(m) = cap.get(1).or(cap.get(2)) {
            found.push(m.as_str().to_string());
        }
    }
    found
}

#[test]
fn single_frame_gives_its_payload() {
    assert_eq!(extract_and_clean_hex_strings("@0448656C6C6F01@"), vec!["48656C6C6F"]);
}

#[test]
fn second_closing_gives_the_same_payload() {
    assert_eq!(extract_and_clean_hex_strings("@0448656C6C6F02@"), vec!["48656C6C6F"]);
}

#[test]
fn frames_come_in_order_of_appearance() {
    let text = "log: @04414201@ more @04434402@ end";
    assert_eq!(extract_and_clean_hex_strings(text), vec!["4142", "4344"]);
}

#[test]
fn mixed_case_digits_are_kept_as_written() {
    assert_eq!(extract_and_clean_hex_strings("@04aBcDeF01@"), vec!["aBcDeF"]);
}

#[test]
fn text_without_frames_gives_nothing() {
    assert!(extract_and_clean_hex_strings("").is_empty());
    assert!(extract_and_clean_hex_strings("no frames here").is_empty());
    assert!(extract_and_clean_hex_strings("@04 48 01@").is_empty());
    assert!(extract_and_clean_hex_strings("@0448656C6C6F03@").is_empty());
    assert!(extract_and_clean_hex_strings("@0448656C6C6F01").is_empty());
    assert!(extract_and_clean_hex_strings("0448656C6C6F01@").is_empty());
    assert!(extract_and_clean_hex_strings("@04XY01@").is_empty());
}

#[test]
fn frame_needs_a_digit_before_its_closing() {
    assert!(extract_and_clean_hex_strings("@0401@").is_empty());
    assert!(extract_and_clean_hex_strings("@0402@").is_empty());
    assert_eq!(extract_and_clean_hex_strings("@04001@"), vec!["0"]);
}

#[test]
fn closing_digits_inside_the_run_stay_in_the_payload() {
    assert_eq!(extract_and_clean_hex_strings("@0401010101@"), vec!["010101"]);
    assert_eq!(extract_and_clean_hex_strings("@04AB0102@"), vec!["AB01"]);
}

#[test]
fn frames_do_not_share_a_marker() {
    assert_eq!(extract_and_clean_hex_strings("@04AB01@04CD02@"), vec!["AB"]);
    assert_eq!(extract_and_clean_hex_strings("@04AB01@@04CD02@"), vec!["AB", "CD"]);
}

#[test]
fn broken_frame_does_not_hide_the_next() {
    assert_eq!(extract_and_clean_hex_strings("@04AB@0448656C01@"), vec!["48656C"]);
    assert_eq!(extract_and_clean_hex_strings("@04@04AB01@"), vec!["AB"]);
}

#[test]
fn odd_payload_is_still_extracted() {
    assert_eq!(extract_and_clean_hex_strings("@04ABC01@"), vec!["ABC"]);
}

#[test]
fn frames_among_other_scripts() {
    let text = "Данные: @04D0BF01@ 数据 @04E4BDA002@ конец";
    assert_eq!(extract_and_clean_hex_strings(text), vec!["D0BF", "E4BDA0"]);
}

#[test]
fn extraction_agrees_with_the_pattern() {
    let texts = [
        "",
        "@",
        "@04",
        "@0401@",
        "@04001@",
        "@0448656C6C6F01@",
        "@0448656C6C6F02@",
        "@0448656C6C6F03@",
        "x@04AB01@y@04CD02@z",
        "@04AB01@04CD02@",
        "@04AB01@@04CD02@",
        "@04AB@0448656C01@",
        "@04@04AB01@",
        "@@04AB01@@",
        "@0401010101@",
        "@04010201@",
        "@04ab01@ @04AB02@ @04aB0102@",
        "@04AB01",
        "@04AB01 @",
        "@04AG01@",
        "zzz@04FFFF02@\n@0400000001@\n",
        "Ввод @04D0BF01@ 数据 @04E4BDA002@",
        "@04\u{ff10}01@",
    ];
    for text in texts {
        assert_eq!(extract_and_clean_hex_strings(text), with_regex(text), "{}", text);
    }
}

#[test]
fn chars_of_gives_each_character() {
    assert_eq!(chars_of("a@Я数"), vec!['a', '@', 'Я', '数']);
    assert!(chars_of("").is_empty());
}

#[test]
fn hex_digit_accepts_both_cases() {
    for c in "0123456789abcdefABCDEF".chars() {
        assert!(hex_digit(c));
    }
    for c in "gG@ /:`\u{ff10}".chars() {
        assert!(!hex_digit(c));
    }
}

fn compare_all(alphabet: &[char], length: u32) {
    let pattern = Regex::new(r"@04([0-9A-Fa-f]+)01@|@04([0-9A-Fa-f]+)02@").unwrap();
    let base = alphabet.len() as u64;
    let count: u64 = base.pow(length);
    let mut text = String::new();
    let mut index: u64 = 0;
    while index < count {
        text.clear();
        let mut rest = index;
        let mut position: u32 = 0;
        while position < length {
            text.push(alphabet[(rest % base) as usize]);
            rest /= base;
            position += 1;
        }
        let mut expected: Vec<String> = Vec::new();
        for cap in pattern.captures_iter(&text) {
            if let Some(m) = cap.get(1).or(cap.get(2)) {
                expected.push(m.as_str().to_string());
            }
        }
        assert_eq!(extract_and_clean_hex_strings(&text), expected, "{}", text);
        index += 1;
    }
}

#[test]
fn extraction_agrees_with_the_pattern_on_all_short_texts() {
    let mut length: u32 = 0;
    while length <= 7 {
        compare_all(&['@', '0', '4', '1', '2', 'x'], length);
        length += 1;
    }
}

#[test]
fn extraction_agrees_with_the_pattern_on_longer_texts() {
    compare_all(&['@', '0', '4', '1', 'x'], 8);
    compare_all(&['@', '0', '4', '2'], 9);
}
