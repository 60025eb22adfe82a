use swordfish::repair::{
    fix_misreads_in, fix_tesseract_string, fix_trailing_runs_in, mend_line_breaks_in,
    normalize_dashes_in, repair, retain_kept_in, strip_leading_artifact_in,
    strip_trailing_break_in, tidy_spaces_in,
};
use swordfish::text::{chars_of, replace_string, string_of};

fn fixed(raw: &str) -> String {
    let mut text = raw.to_string();
    fix_tesseract_string(&mut text);
    text
}

fn step(f: fn(Vec<char>) -> Vec<char>, raw: &str) -> String {
    f(raw.chars().collect()).into_iter().collect()
}

#[test]
fn drops_break_and_stray_capital() {
    assert_eq!(fixed("We Never Learn\nN"), "We Never Learn");
}

#[test]
fn trailing_one_l_l_becomes_three() {
    assert_eq!(fixed("Final Fantasy 1ll"), "Final Fantasy III");
    assert_eq!(fixed("1ll"), "III");
}

#[test]
fn trailing_l_l_l_becomes_bangs() {
    assert_eq!(fixed("K-On lll"), "K-On !!!");
    assert_eq!(fixed("lll"), "!!!");
}

#[test]
fn run_inside_a_text_is_left_alone() {
    assert_eq!(fixed("1ll and 1ll"), "1ll and III");
    assert_eq!(fixed("lllx"), "lllx");
}

#[test]
fn empty_text_stays_empty() {
    assert_eq!(fixed(""), "");
    assert_eq!(fixed("\n"), "");
}

#[test]
fn strips_one_trailing_break() {
    assert_eq!(step(strip_trailing_break_in, "abc\n"), "abc");
    assert_eq!(step(strip_trailing_break_in, "abc\n\n"), "abc\n");
    assert_eq!(step(strip_trailing_break_in, "abc\nN"), "abc");
    assert_eq!(step(strip_trailing_break_in, "abc\nN\n"), "abc");
    assert_eq!(step(strip_trailing_break_in, "abcN"), "abcN");
}

#[test]
fn turns_long_dashes_into_hyphens() {
    assert_eq!(step(normalize_dashes_in, "a\u{2014}b\u{2014}c"), "a-b-c");
    assert_eq!(step(normalize_dashes_in, "a-b"), "a-b");
}

#[test]
fn strips_leading_artifact() {
    assert_eq!(step(strip_leading_artifact_in, "- Rem"), "Rem");
    assert_eq!(step(strip_leading_artifact_in, "-.Rem"), "Rem");
    assert_eq!(step(strip_leading_artifact_in, "- (Rem"), "Rem");
    assert_eq!(step(strip_leading_artifact_in, "(Rem"), "Rem");
    assert_eq!(step(strip_leading_artifact_in, "((Rem"), "(Rem");
    assert_eq!(step(strip_leading_artifact_in, "Rem"), "Rem");
    assert_eq!(step(strip_leading_artifact_in, ""), "");
    assert_eq!(step(strip_leading_artifact_in, "-"), "");
}

#[test]
fn fixes_known_misreads() {
    assert_eq!(step(fix_misreads_in, "IReda"), "Ikeda");
    assert_eq!(step(fix_misreads_in, "IRIR"), "IkIR");
    assert_eq!(step(fix_misreads_in, "A\nRem"), "Rem");
    assert_eq!(step(fix_misreads_in, "Rem \u{201c}NO"), "Rem ");
    assert_eq!(step(fix_misreads_in, "Rem NO"), "Rem NO");
}

#[test]
fn mends_line_breaks() {
    assert_eq!(step(mend_line_breaks_in, "Sword Art\nOnline"), "Sword Art Online");
    assert_eq!(step(mend_line_breaks_in, "Sword-\nArt"), "Sword Art");
    assert_eq!(step(mend_line_breaks_in, "Iku ol\nAsobi"), "Iku yo! Asobi");
    assert_eq!(step(mend_line_breaks_in, "Sword\n.Art"), "Sword Art");
    assert_eq!(step(mend_line_breaks_in, "a-\n.b"), "a b");
    assert_eq!(step(mend_line_breaks_in, "\na"), " a");
    assert_eq!(step(mend_line_breaks_in, "l\na"), "l a");
    assert_eq!(step(mend_line_breaks_in, "no break. here-"), "no break. here-");
}

#[test]
fn keeps_only_allowed_characters() {
    assert_eq!(step(retain_kept_in, "Re:Zero [2nd] #1 \u{e9}!?"), "Re:Zero 2nd 1 !");
    assert_eq!(step(retain_kept_in, " -.!:()'/@&_"), " -.!:()'/@&_");
    assert_eq!(step(retain_kept_in, "a\tb\"c"), "abc");
}

#[test]
fn rewrites_trailing_runs() {
    assert_eq!(step(fix_trailing_runs_in, "Persona mn"), "Persona III");
    assert_eq!(step(fix_trailing_runs_in, "Rocky Il"), "Rocky II");
    assert_eq!(step(fix_trailing_runs_in, "Rocky 1ll"), "Rocky III");
    assert_eq!(step(fix_trailing_runs_in, "Rocky lll"), "Rocky !!!");
    assert_eq!(step(fix_trailing_runs_in, "mnx"), "mnx");
    assert_eq!(step(fix_trailing_runs_in, "Ill"), "Ill");
}

#[test]
fn tidies_spaces() {
    assert_eq!(step(tidy_spaces_in, "  a   b  "), "a b");
    assert_eq!(step(tidy_spaces_in, "a b-"), "a b");
    assert_eq!(step(tidy_spaces_in, "a b -"), "a b");
    assert_eq!(step(tidy_spaces_in, "a b- "), "a b-");
    assert_eq!(step(tidy_spaces_in, "a--"), "a-");
    assert_eq!(step(tidy_spaces_in, "   "), "");
}

#[test]
fn whole_chain_runs_in_order() {
    assert_eq!(fixed("- Sword Art\u{2014}\nOnline  Il\n"), "Sword Art Online II");
    assert_eq!(step(repair, "(IRuma\n.kun mn"), "Ikuma kun III");
}

#[test]
fn settled_text_is_left_alone() {
    for text in ["We Never Learn", "Re:Zero", "K-On !!!", "Rocky II", "a", ""] {
        assert_eq!(fixed(text), text);
        assert_eq!(fixed(&fixed(text)), fixed(text));
    }
}

#[test]
fn repair_need_not_settle_at_once() {
    assert_eq!(fixed("((a"), "(a");
    assert_eq!(fixed("(a"), "a");
    assert_eq!(fixed("amn-"), "amn");
    assert_eq!(fixed("amn"), "aIII");
}

#[test]
fn repaired_text_has_no_stray_spaces() {
    for raw in ["  x  y ", "\n\n a \n b", "- - -", " \u{2014} a", "a \t b"] {
        let out = fixed(raw);
        assert!(!out.starts_with(' '));
        assert!(!out.ends_with(' '));
        assert!(!out.contains("  "));
        assert!(!out.contains('\n'));
    }
}

#[test]
fn replaces_first_occurrence_only() {
    let mut text = "a-b-c".to_string();
    assert!(replace_string(&mut text, "-", "+"));
    assert_eq!(text, "a+b-c");
    assert!(!replace_string(&mut text, "x", "y"));
    assert_eq!(text, "a+b-c");
    let mut empty = String::new();
    assert!(replace_string(&mut empty, "", "z"));
    assert_eq!(empty, "z");
}

#[test]
fn text_goes_to_chars_and_back() {
    let chars = chars_of("h\u{e9}llo");
    assert_eq!(chars, vec!['h', '\u{e9}', 'l', 'l', 'o']);
    assert_eq!(string_of(&chars), "h\u{e9}llo");
}

/// The chain written with the string operations of the standard library.
fn by_string_operations(raw: &str) -> String {
    let mut t = raw.to_string();
    if t.ends_with('\n') {
        t.pop();
    }
    if t.ends_with("\nN") {
        t.truncate(t.len() - 2);
    }
    t = t.replace('\u{2014}', "-");
    if t.starts_with("- ") || t.starts_with("-.") {
        t.drain(0..2);
    }
    if let Some(first) = t.chars().next() {
        if !first.is_ascii_alphanumeric() {
            t.remove(0);
        }
    }
    t = t.replacen("IR", "Ik", 1);
    t = t.replacen("A\n", "", 1);
    if t.ends_with("\u{201c}NO") {
        t.truncate(t.len() - "\u{201c}NO".len());
    }
    let chars: Vec<char> = t.chars().collect();
    let mut mended = String::new();
    for (i, &c) in chars.iter().enumerate() {
        let before_break = chars.get(i + 1) == Some(&'\n');
        if c == '\n' {
            mended.push(' ');
        } else if before_break && c == '-' {
        } else if before_break && c == 'l' && i >= 1 && chars[i - 1] == 'o' {
        } else if c == 'o' && chars.get(i + 1) == Some(&'l') && chars.get(i + 2) == Some(&'\n') {
            mended.push_str("yo!");
        } else if c == '.' && i >= 1 && chars[i - 1] == '\n' {
        } else {
            mended.push(c);
        }
    }
    t = mended;
    t.retain(|c| " -.!:()'/@&_".contains(c) || c.is_ascii_alphanumeric());
    for (from, to) in [("mn", "III"), ("1ll", "III"), ("lll", "!!!"), ("Il", "II")] {
        if t.ends_with(from) {
            t.truncate(t.len() - from.len());
            t.push_str(to);
        }
    }
    while t.contains("  ") {
        t = t.replacen("  ", " ", 1);
    }
    if t.ends_with('-') {
        t.pop();
    }
    t.trim_matches(' ').to_string()
}

#[test]
fn chain_agrees_with_plain_string_operations() {
    let alphabet: Vec<char> = "al1IRmno-. \nANO\u{201c}\u{2014}(\u{e9}#k!".chars().collect();
    let mut state: u64 = 0x2545f4914f6cdd1d;
    for _ in 0..4000 {
        let mut raw = String::new();
        state = state.wrapping_mul(6364136223846793005).wrapping_add(1442695040888963407);
        let length = (state >> 33) % 13;
        for _ in 0..length {
            state = state.wrapping_mul(6364136223846793005).wrapping_add(1442695040888963407);
            raw.push(alphabet[((state >> 33) % alphabet.len() as u64) as usize]);
        }
        assert_eq!(fixed(&raw), by_string_operations(&raw), "for {:?}", raw);
    }
}

#[test]
fn unchanged_texts_are_the_settled_ones() {
    let alphabet: Vec<char> = "al1IRmn- .".chars().collect();
    let mut state: u64 = 99;
    for _ in 0..4000 {
        let mut raw = String::new();
        state = state.wrapping_mul(6364136223846793005).wrapping_add(1442695040888963407);
        let length = (state >> 33) % 6;
        for _ in 0..length {
            state = state.wrapping_mul(6364136223846793005).wrapping_add(1442695040888963407);
            raw.push(alphabet[((state >> 33) % alphabet.len() as u64) as usize]);
        }
        let settled = !raw.contains("  ")
            && !raw.starts_with(' ')
            && !raw.ends_with(' ')
            && !raw.ends_with('-')
            && raw.chars().next().map_or(true, |c| c.is_ascii_alphanumeric())
            && !raw.contains("IR")
            && !["mn", "1ll", "lll", "Il"].iter().any(|run| raw.ends_with(run));
        assert_eq!(fixed(&raw) == raw, settled, "for {:?}", raw);
    }
}

#[test]
fn repaired_text_is_ascii() {
    assert_eq!(fixed("Pok\u{e9}mon"), "Pokmon");
    assert_eq!(fixed("a\u{e9}"), "a");
    let alphabet: Vec<char> = "aZ09 -.!:()'/@&_\u{e9}\u{c9}\u{2014}\u{201c}\n#[~\t\u{a0}".chars().collect();
    let allowed = " -.!:()'/@&_";
    let mut state: u64 = 5;
    for _ in 0..2000 {
        let mut raw = String::new();
        state = state.wrapping_mul(6364136223846793005).wrapping_add(1442695040888963407);
        let length = (state >> 33) % 10;
        for _ in 0..length {
            state = state.wrapping_mul(6364136223846793005).wrapping_add(1442695040888963407);
            raw.push(alphabet[((state >> 33) % alphabet.len() as u64) as usize]);
        }
        let out = fixed(&raw);
        assert!(out.chars().all(|c| c.is_ascii_alphanumeric() || allowed.contains(c)), "{:?}", raw);
    }
}
