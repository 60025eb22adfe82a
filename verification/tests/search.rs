use fancy_regex::Regex;
use swordfish::pattern::{compile_model, regexify_text, AnchorMode, Compiled};
use swordfish::search::{compile_checked, model_finds, pattern_finds};

/// Searches `candidate` for the pattern of `text` with a regex engine: letter
/// case set aside, and with word boundaries that know ASCII letters and
/// digits only.
fn engine_finds(text: &str, candidate: &str) -> bool {
    let word = "[A-Za-z0-9_]";
    let bound = format!("(?:(?<!{w})(?={w})|(?<={w})(?!{w}))", w = word);
    let pattern = regexify_text(&text.to_string()).replace("\\b", &bound);
    Regex::new(&format!("(?i){}", pattern)).unwrap().is_match(candidate).unwrap()
}

fn next(state: &mut u64) -> u64 {
    *state = state.wrapping_mul(6364136223846793005).wrapping_add(1442695040888963407);
    *state >> 33
}

fn random_text(state: &mut u64, alphabet: &[char], longest: u64) -> String {
    let length = next(state) % (longest + 1);
    (0..length).map(|_| alphabet[(next(state) % alphabet.len() as u64) as usize]).collect()
}

#[test]
fn finds_what_the_pattern_allows() {
    assert!(pattern_finds("Rem", "Rem"));
    assert!(pattern_finds("Rem", "kera"));
    assert!(pattern_finds("Rem", "REM"));
    assert!(!pattern_finds("Rem", "Ram"));
    assert!(pattern_finds("Code Geass", "code geoss r2"));
    assert!(pattern_finds("Code Geass", "Geass: the Code"));
    assert!(!pattern_finds("Code Geass", "Codes Geass"));
    assert!(!pattern_finds("Code Geass", "Code Gauss"));
    assert!(pattern_finds("Hatsune Miku", "Hotsvne Miky"));
    assert!(pattern_finds("", ""));
    assert!(!pattern_finds("", "a"));
    assert!(pattern_finds(" ", "anything"));
    assert!(!pattern_finds(" ", ""));
    assert!(!pattern_finds(" ", "\n"));
}

#[test]
fn a_line_break_stops_the_wildcard() {
    assert!(pattern_finds("Bob", "bxxob"));
    assert!(!pattern_finds("Bob", "b\nob"));
    assert!(pattern_finds("Code Geass", "x\nCode Geass"));
    assert!(!pattern_finds("Code Geass", "Code\nGeass"));
}

#[test]
fn model_is_what_is_compiled() {
    match compile_model("Rem") {
        Compiled::Anchored(glyphs) => assert_eq!(glyphs.len(), 3),
        Compiled::Words(_) => panic!("a short token is anchored"),
    }
    match compile_model("Hunter x Hunter") {
        Compiled::Words(assertions) => {
            assert_eq!(assertions.len(), 2);
            assert!(!assertions[0].bounded);
        }
        Compiled::Anchored(_) => panic!("words get lookaheads"),
    }
    let model = compile_model("Code Geass");
    assert!(model_finds(&model, &"code geass".chars().collect()));
}

#[test]
fn checked_pattern_is_handed_out_where_it_finds_its_text() {
    for text in ["Rem", "Code Geass", "Persona 5", "ab22", "a55", "Vol 3. Part", "", "ta_"] {
        let pattern = compile_checked(text).unwrap();
        assert_eq!(pattern.regex, regexify_text(&text.to_string()));
        assert!(engine_finds(text, text));
    }
    assert_eq!(compile_checked("Rem").unwrap().mode, AnchorMode::FullyAnchored);
    assert_eq!(compile_checked("Code Geass").unwrap().mode, AnchorMode::WordAssertion);
    for text in ["foo_bar", "abc 42", "Evan 2.5x", "ab5", "5", "a\nb"] {
        assert!(compile_checked(text).is_none(), "{:?}", text);
        assert!(!engine_finds(text, text));
    }
}

#[test]
fn search_agrees_with_a_regex_engine() {
    let alphabet: Vec<char> = "abtIlRmuvy0O1!xX cd ZQ-:'()&@/_.\n25  ra".chars().collect();
    let mut state: u64 = 11;
    for _ in 0..1500 {
        let text = random_text(&mut state, &alphabet, 12);
        let candidate = if next(&mut state) % 3 == 0 {
            text.to_uppercase()
        } else {
            random_text(&mut state, &alphabet, 14)
        };
        assert_eq!(
            pattern_finds(&text, &candidate),
            engine_finds(&text, &candidate),
            "{:?} in {:?}",
            text,
            candidate
        );
    }
}

#[test]
fn checked_pattern_agrees_with_a_regex_engine() {
    let alphabet: Vec<char> = "abtIlRmuvy0O1!xX cd ZQ-:'()&@/_.25  ".chars().collect();
    let mut state: u64 = 23;
    let mut found = 0;
    let mut missed = 0;
    for _ in 0..1500 {
        let text = random_text(&mut state, &alphabet, 30);
        let checked = compile_checked(&text).is_some();
        assert_eq!(checked, engine_finds(&text, &text), "{:?}", text);
        if checked {
            found += 1;
        } else {
            missed += 1;
        }
    }
    assert!(found > 0 && missed > 0);
}
