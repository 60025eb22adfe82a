use fancy_regex::Regex;
use swordfish::pattern::{
    classify, compile_pattern, normalize, regexify_text, render_glyph, split_words, AnchorMode,
    Confusable, Glyph,
};

fn regex_of(text: &str) -> String {
    regexify_text(&text.to_string())
}

/// Searches `candidate` for `pattern` as the store does: letter case set
/// aside, and with word boundaries that know ASCII letters and digits only.
fn finds(pattern: &str, candidate: &str) -> bool {
    let word = "[A-Za-z0-9_]";
    let bound = format!("(?:(?<!{w})(?={w})|(?<={w})(?!{w}))", w = word);
    let ascii_bounds = pattern.replace("\\b", &bound);
    Regex::new(&format!("(?i){}", ascii_bounds)).unwrap().is_match(candidate).unwrap()
}

#[test]
fn short_plain_token() {
    assert_eq!(regex_of("Bob"), "^b.*o.*b$");
    assert_eq!(regex_of("Bo"), "^b.*.*o$");
    assert_eq!(regex_of("B"), "^.*b$");
}

#[test]
fn short_token_with_classes() {
    assert_eq!(regex_of("Rita"), "^[rk].*i[ti].*[ao]$");
    assert_eq!(regex_of("tom"), "^[ti].*o.*(m|ra)$");
    assert_eq!(regex_of("a"), "^.*[ao]$");
    assert_eq!(regex_of("L0l!"), "^l.*[0o][il!1i].*[il!1i]$");
}

#[test]
fn empty_text_is_anchored_on_nothing() {
    assert_eq!(regex_of(""), "^$");
    let p = compile_pattern("");
    assert_eq!(p.mode, AnchorMode::FullyAnchored);
}

#[test]
fn words_become_lookaheads() {
    assert_eq!(regex_of("Code Geass"), "(?=.*\\bcode\\b)(?=.*ge[ao]ss).+");
    assert_eq!(regex_of("Sword"), "^s.*wor.*d$");
    assert_eq!(regex_of("Frieren"), "(?=.*\\bfrieren\\b).+");
}

#[test]
fn word_mode_ends_with_catch_all() {
    for text in ["Code Geass", "a b", "Frieren", " ", "x X x"] {
        let p = compile_pattern(text);
        assert_eq!(p.mode, AnchorMode::WordAssertion);
        assert!(p.regex.ends_with(".+"));
    }
}

#[test]
fn single_characters_in_the_middle_are_skipped() {
    assert_eq!(regex_of("Code b Geass"), "(?=.*\\bcode\\b)(?=.*ge[ao]ss).+");
    assert_eq!(regex_of("b Code Geass"), "(?=.*\\bb\\b)(?=.*\\bcode\\b)(?=.*ge[ao]ss).+");
    assert_eq!(regex_of("Code Geass b"), "(?=.*\\bcode\\b)(?=.*ge[ao]ss)(?=.*\\bb\\b).+");
}

#[test]
fn crosses_are_always_skipped() {
    assert_eq!(regex_of("Hunter x Hunter"), "(?=.*h[uvy]n[ti]er)(?=.*h[uvy]n[ti]er).+");
    assert_eq!(regex_of("x Hunters"), "(?=.*h[uvy]n[ti]ers).+");
    assert_eq!(regex_of("Hunters X"), "(?=.*h[uvy]n[ti]ers).+");
}

#[test]
fn long_texts_match_on_the_middle_of_words() {
    let text = "Bungo Dogs Wonder Series Obscure";
    assert_eq!(
        regex_of(text),
        "(?=.*b[uvy]ngo)(?=.*\\bdogs\\b)(?=.*nd)(?=.*ri)(?=.*[0o]bsc[uvy]re).+"
    );
    assert_eq!(
        regex_of("Bungo Dogs Wonder Series"),
        "(?=.*b[uvy]ngo)(?=.*\\bdogs\\b)(?=.*nd)(?=.*ri).+"
    );
    assert_eq!(
        regex_of("Bungo Dogs Wonder Seri"),
        "(?=.*b[uvy]ngo)(?=.*\\bdogs\\b)(?=.*\\bwonder\\b)(?=.*\\bseri\\b).+"
    );
}

#[test]
fn long_words_with_class_at_the_edge_stay_whole() {
    let text = "Afterschool Classmates Treasure";
    assert_eq!(
        regex_of(text),
        "(?=.*af[ti]erschoo[il!1i])(?=.*c[il!1i][ao]ss(m|ra)[ao][ti]es)(?=.*e[ao]s[uvy]).+"
    );
}

#[test]
fn decimal_point_is_dropped() {
    assert_eq!(regex_of("Echo 2.5"), "(?=.*\\becho\\b)(?=.*\\b2\\b).+");
    assert_eq!(regex_of("Echo 2.55"), "(?=.*\\becho\\b)(?=.*\\b25\\b).+");
    assert_eq!(regex_of("Echo 2..5 c"), "(?=.*\\becho\\b)(?=.*\\b25\\b)(?=.*\\bc\\b).+");
    assert_eq!(regex_of("Echo b.5 c"), "(?=.*\\becho\\b)(?=.*\\bc\\b).+");
    assert_eq!(regex_of("E 2.5 c"), "(?=.*\\be\\b)(?=.*\\bc\\b).+");
}

#[test]
fn trailing_digit_is_dropped() {
    assert_eq!(regex_of("Persona 5"), "(?=.*person[ao]).+");
    assert_eq!(regex_of("Code R2"), "(?=.*\\bcode\\b)(?=.*[rk]).+");
    assert_eq!(regex_of("ab5"), "^[ao].*.*b$");
    assert_eq!(regex_of("eb5"), "^e.*.*b$");
    assert_eq!(regex_of("Steins 0"), "(?=.*s[ti]eins)(?=.*[0o]).+");
}

#[test]
fn other_characters_separate_words() {
    assert_eq!(regex_of("Re:Zero"), "(?=.*[rk]e)(?=.*\\bzero\\b).+");
    assert_eq!(regex_of("Pok\u{e9}mon"), "(?=.*\\bpok\\b)(?=.*(m|ra)on).+");
    assert_eq!(regex_of("K-On"), "(?=.*\\bk\\b)(?=.*[0o]n).+");
}

#[test]
fn table_of_confusable_classes() {
    for (c, k) in [
        ('0', Confusable::ZeroOh),
        ('O', Confusable::ZeroOh),
        ('u', Confusable::Uvy),
        ('v', Confusable::Uvy),
        ('y', Confusable::Uvy),
        ('t', Confusable::Ti),
        ('I', Confusable::Stroke),
        ('l', Confusable::Stroke),
        ('!', Confusable::Stroke),
        ('1', Confusable::Stroke),
        ('R', Confusable::Rk),
        ('m', Confusable::Em),
        ('a', Confusable::Ao),
    ] {
        assert_eq!(classify(c), Glyph::Class(k));
    }
    for c in ['o', 'U', 'T', 'i', 'L', 'r', 'M', 'A', 'z', '9', '2'] {
        assert_eq!(classify(c), Glyph::Plain(c));
    }
    for c in [' ', '.', '-', '_', '\u{e9}', '\n', '(', '[', '|'] {
        assert_eq!(classify(c), Glyph::Gap);
    }
}

#[test]
fn classes_are_written_in_small_letters() {
    let text: String = [
        Confusable::ZeroOh,
        Confusable::Uvy,
        Confusable::Ti,
        Confusable::Stroke,
        Confusable::Rk,
        Confusable::Em,
        Confusable::Ao,
    ]
    .into_iter()
    .flat_map(|k| render_glyph(Glyph::Class(k)))
    .collect();
    assert_eq!(text, "[0o][uvy][ti][il!1i][rk](m|ra)[ao]");
    assert_eq!(render_glyph(Glyph::Plain('Q')), vec!['q']);
}

#[test]
fn normalized_text_splits_into_words() {
    let glyphs = normalize(&"be  A.".chars().collect());
    assert_eq!(
        glyphs,
        vec![Glyph::Plain('b'), Glyph::Plain('e'), Glyph::Gap, Glyph::Gap, Glyph::Plain('A'), Glyph::Gap]
    );
    let words = split_words(&glyphs);
    assert_eq!(words, vec![vec![Glyph::Plain('b'), Glyph::Plain('e')], vec![Glyph::Plain('A')]]);
}

#[test]
fn pattern_finds_its_own_text() {
    for text in [
        "Rita",
        "tom",
        "Bob",
        "a",
        "L0l!",
        "Code Geass",
        "Frieren",
        "Hunter x Hunter",
        "Persona 5",
        "Steins;Gate 0",
        "Re:Zero",
        "Pok\u{e9}mon",
        "K-On !!!",
        "We Never Learn",
        "Bungo Stray Dogs Beast Wonderful",
        "Afterschool Classmates Treasure",
        "That Time I Got Reincarnated as a Slime",
        "Asobi ni Iku yo! Asobi ni Oide",
        "Mr. Osomatsu",
        "Vol. 3 (Part 2) @home & more",
        "snake _ case",
        "mmmm",
        "Persona5",
        "Code R2",
        "ta_",
        "Vol 3. Part",
        "a55",
    ] {
        let regex = regex_of(text);
        assert!(finds(&regex, text), "{} does not find {}", regex, text);
        assert!(finds(&regex, &text.to_uppercase()), "{} does not find upper {}", regex, text);
    }
}

#[test]
fn pattern_tolerates_the_known_misreadings() {
    assert!(finds(&regex_of("Rem"), "Rem"));
    assert!(finds(&regex_of("Rem"), "kera"));
    assert!(finds(&regex_of("Code Geass"), "Code Geoss"));
    assert!(finds(&regex_of("Hatsune Miku"), "Hotsvne Miky"));
    assert!(!finds(&regex_of("Code Geass"), "Code Gauss"));
    assert!(!finds(&regex_of("Bob"), "Rob"));
}

#[test]
fn pattern_can_miss_texts_outside_its_reach() {
    assert!(!finds(&regex_of("foo_bar"), "foo_bar"));
    assert!(!finds(&regex_of("abc 42"), "abc 42"));
    assert!(!finds(&regex_of("Evan 2.5x"), "Evan 2.5x"));
    assert!(!finds(&regex_of("ab5"), "ab5"));
}

#[test]
fn short_means_fewer_than_six_bytes() {
    assert_eq!(regex_of("bcdef"), "^b.*cde.*f$");
    assert_eq!(regex_of("bcdefg"), "(?=.*\\bbcdefg\\b).+");
    assert_eq!(regex_of("\u{e9}\u{e9}\u{e9}"), ".+");
    assert_eq!(regex_of("\u{e9}\u{e9}b"), "(?=.*\\bb\\b).+");
    assert_eq!(regex_of("b c"), "(?=.*\\bb\\b)(?=.*\\bc\\b).+");
}

#[test]
fn long_means_more_than_twenty_three_bytes() {
    assert_eq!(
        regex_of("wonder wonder wonder xz"),
        "(?=.*\\bwonder\\b)(?=.*\\bwonder\\b)(?=.*\\bwonder\\b)(?=.*\\bxz\\b).+"
    );
    assert_eq!(
        regex_of("wonder wonder wonder xzq"),
        "(?=.*nd)(?=.*nd)(?=.*nd)(?=.*\\bxzq\\b).+"
    );
    assert_eq!(
        regex_of("wonder wonder wonder\u{e9}xz"),
        "(?=.*nd)(?=.*nd)(?=.*nd)(?=.*\\bxz\\b).+"
    );
    assert_eq!(regex_of("wonde wond wonder wonders"), "(?=.*n)(?=.*\\bwond\\b)(?=.*nd)(?=.*nde).+");
}

#[test]
fn plain_texts_are_found_by_their_patterns() {
    let alphabet: Vec<char> = "abtIlRmuvy0O1!xX cd ZQ-:'()&@/\u{e9}25  ".chars().collect();
    let mut state: u64 = 7;
    let mut tried = 0;
    while tried < 1500 {
        let mut text = String::new();
        state = state.wrapping_mul(6364136223846793005).wrapping_add(1442695040888963407);
        let length = 1 + (state >> 33) % 30;
        for _ in 0..length {
            state = state.wrapping_mul(6364136223846793005).wrapping_add(1442695040888963407);
            text.push(alphabet[((state >> 33) % alphabet.len() as u64) as usize]);
        }
        let last = text.chars().last().unwrap();
        let before_last = text.chars().rev().nth(1);
        let gap = |c: char| !c.is_ascii_alphanumeric() && c != '!';
        if ('2'..='9').contains(&last) && !before_last.map_or(false, gap) {
            continue;
        }
        tried += 1;
        let regex = regex_of(&text);
        assert!(finds(&regex, &text), "{} does not find {:?}", regex, text);
    }
}
