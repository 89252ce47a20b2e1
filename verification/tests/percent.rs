use yt_downloader::percent::{is_numeral_chars, Percent};

fn accepted(token: &str) -> bool {
    let chars: Vec<char> = token.chars().collect();
    let by_chars = is_numeral_chars(&chars);
    let parsed = Percent::parse(token);
    assert_eq!(parsed.is_some(), by_chars);
    if let Some(percent) = parsed {
        assert_eq!(percent.as_str(), token);
    }
    by_chars
}

#[test]
fn plain_numbers_are_numerals() {
    for token in ["0", "7", "100", "54.2", "0.0", "5.", ".5", "007", "1234567890.0987654321"] {
        assert!(accepted(token), "{}", token);
    }
}

#[test]
fn signs_and_exponents_are_numerals() {
    for token in ["+1", "-1", "+.5", "-5.", "1e5", "1E5", "1e+5", "1e-5", "2.5e3", ".5e0", "5.e1", "-1.5E-10"] {
        assert!(accepted(token), "{}", token);
    }
}

#[test]
fn the_special_words_are_numerals_in_any_case() {
    for token in ["inf", "INF", "Inf", "infinity", "Infinity", "INFINITY", "nan", "NaN", "NAN", "+inf", "-infinity", "-nan"] {
        assert!(accepted(token), "{}", token);
    }
}

#[test]
fn other_text_is_no_numeral() {
    for token in [
        "", "+", "-", ".", "+.", "e5", ".e5", "1e", "1e+", "1e-", "1.2.3", "1..2", "--1", "+-1",
        "1 ", " 1", "1,5", "abc", "in", "infinit", "infinityy", "na", "nann", "1e5.0", "1e2e3",
        "0x10", "1_000", "12a", "a12", "1e5x", "\u{661}", "5%", "inf1", "1inf",
    ] {
        assert!(!accepted(token), "{}", token);
    }
}

#[test]
fn numerals_are_what_the_machine_reads_as_a_number() {
    let tokens = [
        "0", "54.2", "5.", ".5", "+1", "-1e5", "1E-5", "inf", "NaN", "-Infinity", "", ".", "+",
        "e5", "1e", "1.2.3", "abc", "1e+", " 1", "1 ", "infinit", "+.e1", "..", "1.e", "1e1.",
        "9e99999", "nAn", "iNf", "+-1", "1+", "1-1", ".+1", "E1", "1ee1", "1.5e+05",
    ];
    for token in tokens {
        assert_eq!(accepted(token), token.parse::<f32>().is_ok(), "{:?}", token);
    }
}

#[test]
fn a_percentage_keeps_its_text() {
    let percent = Percent::parse("54.20").unwrap();
    assert_eq!(percent.as_str(), "54.20");
    assert_eq!(percent.clone(), percent);
    assert_eq!(percent.as_str().parse::<f32>().unwrap(), 54.2);
    assert_eq!(Percent::parse("54,2"), None);
}
