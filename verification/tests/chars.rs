use swc_markdown_parser::chars::{
    is_allowed_character, is_allowed_control_character, is_ascii_alpha, is_ascii_hex_digit,
    is_ascii_lower_alpha, is_ascii_upper_alpha, is_blank_line, is_control, is_line_ending,
    is_lower_hex_digit, is_noncharacter, is_spacy, is_surrogate, is_upper_hex_digit,
};

#[test]
fn line_endings() {
    assert!(is_line_ending('\n'));
    assert!(is_line_ending('\r'));
    assert!(!is_line_ending(' '));
}

#[test]
fn spacy_characters() {
    for c in ['\t', '\n', '\x0c', '\r', ' '] {
        assert!(is_spacy(c));
    }
    assert!(!is_spacy('\x0b'));
    assert!(!is_spacy('a'));
}

#[test]
fn line_endings_are_spacy() {
    for c in ['\n', '\r'] {
        assert!(is_line_ending(c) && is_spacy(c));
    }
}

#[test]
fn control_characters() {
    assert!(is_control(0x00));
    assert!(is_control(0x1f));
    assert!(is_control(0x7f));
    assert!(is_control(0x85));
    assert!(is_control(0x9f));
    assert!(!is_control(0x09));
    assert!(!is_control(0x0a));
    assert!(!is_control(0x0c));
    assert!(!is_control(0x0d));
    assert!(!is_control(0x20));
    assert!(!is_control(0xa0));
}

#[test]
fn surrogates() {
    assert!(is_surrogate(0xd800));
    assert!(is_surrogate(0xdfff));
    assert!(!is_surrogate(0xd7ff));
    assert!(!is_surrogate(0xe000));
}

#[test]
fn noncharacters() {
    assert!(is_noncharacter(0xfdd0));
    assert!(is_noncharacter(0xfdef));
    assert!(!is_noncharacter(0xfdf0));
    assert!(is_noncharacter(0xfffe));
    assert!(is_noncharacter(0xffff));
    assert!(is_noncharacter(0x1fffe));
    assert!(is_noncharacter(0x10ffff));
    assert!(!is_noncharacter(0xfffd));
    assert!(!is_noncharacter(0x1fffd));
    assert!(!is_noncharacter(0x11fffe));
    let count = (0u32..=0x10ffff).filter(|c| is_noncharacter(*c)).count();
    assert_eq!(count, 66);
}

#[test]
fn hex_digits() {
    assert!(is_upper_hex_digit('F'));
    assert!(!is_upper_hex_digit('f'));
    assert!(is_lower_hex_digit('f'));
    assert!(!is_lower_hex_digit('F'));
    assert!(is_ascii_hex_digit('7'));
    assert!(is_ascii_hex_digit('a'));
    assert!(is_ascii_hex_digit('A'));
    assert!(!is_ascii_hex_digit('g'));
}

#[test]
fn letters() {
    assert!(is_ascii_upper_alpha('Q'));
    assert!(!is_ascii_upper_alpha('q'));
    assert!(is_ascii_lower_alpha('q'));
    assert!(is_ascii_alpha('z'));
    assert!(is_ascii_alpha('A'));
    assert!(!is_ascii_alpha('1'));
    assert!(!is_ascii_alpha('é'));
}

#[test]
fn allowed_characters() {
    assert!(is_allowed_character('a'));
    assert!(is_allowed_character('\0'));
    assert!(is_allowed_character('\n'));
    assert!(!is_allowed_character('\u{1}'));
    assert!(!is_allowed_character('\u{7f}'));
    assert!(!is_allowed_character('\u{ffff}'));
    assert!(!is_allowed_character('\u{fdd0}'));
    assert!(is_allowed_control_character(0x01));
    assert!(!is_allowed_control_character(0x00));
}

#[test]
fn blank_lines() {
    assert!(is_blank_line(&[]));
    assert!(is_blank_line(&[' ', '\t', ' ']));
    assert!(!is_blank_line(&[' ', 'a']));
    assert!(!is_blank_line(&['\n']));
}
