use faux_show_backend::text::{
    chars_of, contains_text, parse_u64, push_decimal, same_text, split_at_char, trim_class, CharClass,
};

#[test]
fn chars_of_keeps_order() {
    assert_eq!(chars_of("héllo"), vec!['h', 'é', 'l', 'l', 'o']);
    assert_eq!(chars_of(""), Vec::<char>::new());
}

#[test]
fn trimming_white_space_agrees_with_std() {
    for s in ["  page ", "\t\nword\r", "\u{3000}x\u{a0}", "\u{85}\u{2028}", "", "a b", "\u{200b}z"] {
        assert_eq!(trim_class(s, CharClass::WhiteSpace), s.trim());
    }
}

#[test]
fn trimming_sentence_ends() {
    assert_eq!(trim_class("page!?", CharClass::SentenceEnd), "page");
    assert_eq!(trim_class("...e.g.", CharClass::SentenceEnd), "e.g");
    assert_eq!(trim_class("?!.", CharClass::SentenceEnd), "");
    assert_eq!(trim_class(" page.", CharClass::SentenceEnd), " page");
}

#[test]
fn splitting_at_spaces_agrees_with_std() {
    for s in ["example page", "a  b", "", " lead", "trail ", "one"] {
        let expected: Vec<String> = s.split(" ").map(|p| p.to_string()).collect();
        assert_eq!(split_at_char(s, ' '), expected);
    }
}

#[test]
fn substring_search() {
    assert!(contains_text("Output HDMI-A-1 connected", "HDMI-A-1"));
    assert!(!contains_text("Output HDMI-A-1 connected", "HDMI-A-2"));
    assert!(contains_text("abc", ""));
    assert!(!contains_text("ab", "abc"));
    assert!(contains_text("aab", "ab"));
}

#[test]
fn decimal_rendering() {
    for n in [0u64, 7, 10, 1000, 65534, u64::MAX] {
        let mut s = "x".to_string();
        push_decimal(&mut s, n);
        assert_eq!(s, format!("x{}", n));
    }
}

#[test]
fn parsing_unsigned_numbers_agrees_with_std() {
    for s in ["1000", "+42", "", "+", "-1", " 1", "007", "18446744073709551615", "18446744073709551616", "12a"] {
        assert_eq!(parse_u64(s), s.parse::<u64>().ok(), "input {:?}", s);
    }
}

#[test]
fn text_equality() {
    assert!(same_text("message", "message"));
    assert!(!same_text("message", "messages"));
    assert!(!same_text("Message", "message"));
}
