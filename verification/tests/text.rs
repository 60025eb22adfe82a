use swordfish::text::{
    append_chars, ascii_alnum, ascii_digit, chars_of, ends_with, find, find_from, is_match_at,
    remove_matches, replace_first_in, slice_of, split, starts_with, string_of, to_ascii_lower,
};

fn chars(s: &str) -> Vec<char> {
    s.chars().collect()
}

#[test]
fn finds_the_first_occurrence() {
    assert_eq!(find(&chars("abcabc"), &chars("bc")), Some(1));
    assert_eq!(find(&chars("abcabc"), &chars("cb")), None);
    assert_eq!(find(&chars("abc"), &chars("")), Some(0));
    assert_eq!(find(&chars(""), &chars("")), Some(0));
    assert_eq!(find(&chars(""), &chars("a")), None);
    assert_eq!(find(&chars("ab"), &chars("abc")), None);
    assert_eq!(find(&chars("aab"), &chars("ab")), Some(1));
}

#[test]
fn finds_from_a_position_on() {
    assert_eq!(find_from(&chars("abcabc"), &chars("bc"), 1), Some(1));
    assert_eq!(find_from(&chars("abcabc"), &chars("bc"), 2), Some(4));
    assert_eq!(find_from(&chars("abcabc"), &chars("bc"), 5), None);
    assert_eq!(find_from(&chars("abcabc"), &chars("bc"), 99), None);
    assert_eq!(find_from(&chars("abc"), &chars(""), 3), Some(3));
    assert_eq!(find_from(&chars("abc"), &chars(""), 4), None);
}

#[test]
fn matches_at_a_position() {
    assert!(is_match_at(&chars("abc"), &chars("bc"), 1));
    assert!(!is_match_at(&chars("abc"), &chars("bc"), 0));
    assert!(!is_match_at(&chars("abc"), &chars("bc"), 2));
    assert!(!is_match_at(&chars("abc"), &chars("bc"), usize::MAX));
    assert!(is_match_at(&chars("abc"), &chars(""), 3));
    assert!(!is_match_at(&chars("abc"), &chars(""), 4));
}

#[test]
fn tells_beginnings_and_endings() {
    assert!(starts_with(&chars("- Rem"), &chars("- ")));
    assert!(!starts_with(&chars("-"), &chars("- ")));
    assert!(starts_with(&chars(""), &chars("")));
    assert!(ends_with(&chars("Rocky Il"), &chars("Il")));
    assert!(!ends_with(&chars("l"), &chars("Il")));
    assert!(ends_with(&chars("x"), &chars("")));
}

#[test]
fn cuts_and_joins() {
    assert_eq!(slice_of(&chars("abcdef"), 2, 4), chars("cd"));
    assert_eq!(slice_of(&chars("abcdef"), 3, 3), chars(""));
    assert_eq!(slice_of(&chars("abcdef"), 0, 6), chars("abcdef"));
    let mut text = chars("ab");
    append_chars(&mut text, &chars("cd"));
    append_chars(&mut text, &chars(""));
    assert_eq!(text, chars("abcd"));
}

#[test]
fn replaces_the_first_occurrence() {
    let mut text = chars("IRIR");
    assert!(replace_first_in(&mut text, &chars("IR"), &chars("Ik")));
    assert_eq!(text, chars("IkIR"));
    assert!(replace_first_in(&mut text, &chars("kI"), &chars("")));
    assert_eq!(text, chars("IR"));
    assert!(!replace_first_in(&mut text, &chars("x"), &chars("y")));
    assert_eq!(text, chars("IR"));
}

#[test]
fn empty_separator_splits_nothing() {
    assert_eq!(split(&chars("abc"), &chars("")), vec![chars("abc")]);
    assert_eq!(remove_matches(&chars("abc"), &chars("")), chars("abc"));
}

#[test]
fn knows_ascii_letters_and_digits() {
    for c in ['a', 'z', 'A', 'Z', '0', '9'] {
        assert!(ascii_alnum(c));
    }
    for c in ['`', '{', '@', '[', '/', ':', ' ', '\u{e9}', '\u{660}'] {
        assert!(!ascii_alnum(c));
    }
    assert!(ascii_digit('0') && ascii_digit('9'));
    assert!(!ascii_digit('a') && !ascii_digit('/') && !ascii_digit(':') && !ascii_digit('\u{660}'));
    assert_eq!(to_ascii_lower('A'), 'a');
    assert_eq!(to_ascii_lower('Z'), 'z');
    assert_eq!(to_ascii_lower('a'), 'a');
    assert_eq!(to_ascii_lower('['), '[');
    assert_eq!(to_ascii_lower('\u{c9}'), '\u{c9}');
}

#[test]
fn strings_become_characters_and_back() {
    for text in ["", "abc", "\u{2661}448 \u{b7} \u{1f3f7}"] {
        assert_eq!(chars_of(text), chars(text));
        assert_eq!(string_of(&chars(text)), text);
    }
}

#[test]
fn white_space_is_the_unicode_property() {
    for code in 0..=0x10ffffu32 {
        if let Some(c) = char::from_u32(code) {
            assert_eq!(swordfish::text::is_whitespace(c), c.is_whitespace(), "U+{:04X}", code);
        }
    }
}

#[test]
fn ascii_numerics_are_the_digits() {
    for code in 0..=0x7fu32 {
        let c = char::from_u32(code).unwrap();
        assert_eq!(c.is_numeric(), c.is_ascii_digit(), "U+{:04X}", code);
    }
}
