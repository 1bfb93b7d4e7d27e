use ln_routing_replay::text::{
    begins_with, chars_of, find_chars, is_white_space_char, parse_number, same_chars, split_chars,
    split_chars_once, strip_char_suffix, trim_chars_start,
};

fn text_of(chars: &[char]) -> String {
    chars.iter().collect()
}

#[test]
fn white_space_is_that_of_unicode() {
    for c in '\0'..=char::MAX {
        assert_eq!(is_white_space_char(c), c.is_whitespace(), "{:?}", c);
    }
}

#[test]
fn numbers_are_read_as_the_standard_library_reads_them() {
    let texts = [
        "0", "7", "00012", "+5", "+", "", "-1", "1a", "a1", " 1", "1 ", "++1", "1+",
        "18446744073709551615", "18446744073709551616", "99999999999999999999", "\u{0663}",
        "+018446744073709551615",
    ];
    for text in texts {
        assert_eq!(parse_number(&chars_of(text)), text.parse::<u64>().ok(), "{:?}", text);
    }
}

#[test]
fn a_printed_number_is_read_back() {
    for number in [0, 9, 10, 1_000, 973586760097005568, u64::MAX] {
        assert_eq!(parse_number(&chars_of(&format!("{}", number))), Some(number));
    }
}

#[test]
fn text_is_split_at_every_separator() {
    for text in ["", ",", "a", "a,b", ",a,", "a,,b", "\u{e9},\u{e8}"] {
        let chars = chars_of(text);
        let pieces: Vec<String> = split_chars(&chars, ',').into_iter().map(text_of).collect();
        let expected: Vec<String> = text.split(',').map(String::from).collect();
        assert_eq!(pieces, expected, "{:?}", text);
    }
}

#[test]
fn the_pieces_of_split_text_join_to_the_text() {
    for text in ["", ",", "a", "a,b", ",a,", "a,,b"] {
        let chars = chars_of(text);
        let pieces: Vec<String> = split_chars(&chars, ',').into_iter().map(text_of).collect();
        assert_eq!(pieces.join(","), text);
        assert!(pieces.iter().all(|piece| !piece.contains(',')));
    }
}

#[test]
fn text_is_split_once_at_the_first_occurrence() {
    for (text, pattern) in [
        ("a - b - c", " - "), ("abc", "abc"), ("abc", "d"), ("aab", "ab"), ("", "x"), ("xy", "y"),
    ] {
        let (chars, wanted) = (chars_of(text), chars_of(pattern));
        let parts = split_chars_once(&chars, &wanted).map(|(a, b)| (text_of(a), text_of(b)));
        let expected = text.split_once(pattern).map(|(a, b)| (a.to_string(), b.to_string()));
        assert_eq!(parts, expected, "{:?} {:?}", text, pattern);
    }
}

#[test]
fn the_first_occurrence_is_found() {
    let text = chars_of("ababa");
    assert_eq!(find_chars(&text, &chars_of("aba")), Some(0));
    assert_eq!(find_chars(&text, &chars_of("ba")), Some(1));
    assert_eq!(find_chars(&text, &chars_of("bb")), None);
    assert_eq!(find_chars(&text, &chars_of("")), Some(0));
    assert_eq!(find_chars(&text, &chars_of("ababab")), None);
}

#[test]
fn ends_of_text_are_trimmed() {
    assert_eq!(text_of(trim_chars_start(&chars_of(" \t\u{3000}a b "))), "a b ");
    assert_eq!(text_of(trim_chars_start(&chars_of("   "))), "");
    assert_eq!(text_of(strip_char_suffix(&chars_of("12)"), ')')), "12");
    assert_eq!(text_of(strip_char_suffix(&chars_of("12))"), ')')), "12)");
    assert_eq!(text_of(strip_char_suffix(&chars_of("12"), ')')), "12");
    assert_eq!(text_of(strip_char_suffix(&chars_of(""), ')')), "");
}

#[test]
fn text_is_compared_by_its_characters() {
    assert!(same_chars(&chars_of("msat"), &chars_of("msat")));
    assert!(!same_chars(&chars_of("msat"), &chars_of("msats")));
    assert!(!same_chars(&chars_of("msat"), &chars_of("mSat")));
    assert!(begins_with(&chars_of("inv 0.5"), &chars_of("inv ")));
    assert!(!begins_with(&chars_of("inv"), &chars_of("inv ")));
    assert!(!begins_with(&chars_of(" inv "), &chars_of("inv ")));
}

#[test]
fn joined_pieces_are_split() {
    let pieces = ["", "a b", "c", ""];
    let chars = chars_of(&pieces.join(","));
    let split: Vec<String> = split_chars(&chars, ',').into_iter().map(text_of).collect();
    assert_eq!(split, pieces);
}
